use vstd::multiset::Multiset;
use vstd::prelude::*;
use vstd::seq_lib::to_multiset_build;

use crate::comparator::{le, Comparator};
use crate::cursor::{entry_at, moved_next, moved_prev, CursorLendingIterator};
use crate::lending_iterator_support::LentItem;
use crate::merging_iter::MergingIter;
use crate::merging_laws::plain_parts;
use crate::merging_spec::{head, left_of, passed_of, rows_of, settled};
use crate::seekable::ItemToKey;
use crate::seekable_iterators::SeekableLendingIterator;
use crate::tally::{
    back_bag, back_grows, bags_at_the_ends, cuts_fit, front_bag, front_grows, lengths, sum,
    sum_is_bounded, whole_bag, zeros,
};

verus! {

impl<Key, Cmp, Iter> MergingIter<Key, Cmp, Iter> where
    Key: ?Sized,
    Cmp: Comparator<Key>,
    Iter: SeekableLendingIterator<Key, Cmp> + ItemToKey<Key>,
 {
    /// The key of the entry that the merge stands on.
    pub open spec fn current_key(&self) -> &Key {
        head(&self.components()[self.current_index().unwrap()])
    }

    /// The number of entries of all components.
    pub open spec fn count(&self) -> int {
        sum(lengths(rows_of(self.components())))
    }

    /// The entries that a run of states stood on from its second state on, `count` of them.
    pub open spec fn yielded<'a>(run: Seq<Self>, count: int) -> Seq<LentItem<'a, Iter>> {
        Seq::new(count as nat, |u: int| run[u + 1].peek().unwrap())
    }

    /// A run of states is a pass forwards: it begins with a lawful merge that stands on no
    /// entry, as `reset` leaves it, each state after that is what `next` makes of the one
    /// before, and there is one such state for each entry of the components and one more.
    pub open spec fn is_forward_pass(run: Seq<Self>) -> bool {
        &&& run.len() >= 2
        &&& run[0].lawful()
        &&& run[0].aligned()
        &&& run[0].current_index() is None
        &&& run.len() == run[0].count() + 2
        &&& forall|t: int| 0 <= t < run.len() - 1 ==> (#[trigger] run[t + 1]).is_next_of(&run[t])
    }

    /// A run of states is a pass backwards: it begins with a lawful merge, the next state is
    /// what `seek_to_last` makes of it, each state after that is what `prev` makes of the one
    /// before, and after the first there is one state for each entry of the components and
    /// one more.
    pub open spec fn is_backward_pass(run: Seq<Self>) -> bool {
        &&& run.len() >= 2
        &&& run[0].lawful()
        &&& run[1].is_seek_to_last_of(&run[0])
        &&& run.len() == run[1].count() + 2
        &&& forall|t: int| 1 <= t < run.len() - 1 ==> (#[trigger] run[t + 1]).is_prev_of(&run[t])
    }

    /// What holds of the state at `t` of a pass forwards: the merge is lawful and aligned, it
    /// has the entries that it began with, as many of them lie behind its components as it
    /// has made steps but one, and these are the entries that it stood on before.
    pub open spec fn passing_forwards(run: Seq<Self>, t: int) -> bool {
        let parts = run[t].components();
        &&& run[t].lawful()
        &&& run[t].aligned()
        &&& run[t].forwards()
        &&& run[t].order() == run[0].order()
        &&& rows_of(parts) == rows_of(run[0].components())
        &&& cuts_fit(rows_of(parts), passed_of(parts))
        &&& sum(passed_of(parts)) == t - 1
        &&& front_bag(rows_of(parts), passed_of(parts)) == Self::yielded(run, t - 1).to_multiset()
    }

    /// What holds of the state at `t` of a pass backwards: the merge is lawful and aligned,
    /// it has the entries that it had after the seek, as many of them were left by its
    /// components as it has made steps but one, and these are the entries that it stood on
    /// before.
    pub open spec fn passing_backwards(run: Seq<Self>, t: int) -> bool {
        let parts = run[t].components();
        &&& run[t].lawful()
        &&& run[t].aligned()
        &&& !run[t].forwards()
        &&& run[t].order() == run[0].order()
        &&& rows_of(parts) == rows_of(run[1].components())
        &&& cuts_fit(rows_of(parts), left_of(parts))
        &&& sum(left_of(parts)) == run[1].count() - (t - 1)
        &&& back_bag(rows_of(parts), left_of(parts)) == Self::yielded(run, t - 1).to_multiset()
    }

    /// A lawful and aligned merge that stands on no entry has all its entries behind it, seen
    /// forwards, and none left, seen backwards.
    proof fn spent(&self)
        requires
            self.lawful(),
            self.aligned(),
            self.current_index() is None,
        ensures
            passed_of(self.components()) == lengths(rows_of(self.components())),
            left_of(self.components()) == zeros(rows_of(self.components())),
    {
        let parts = self.components();
        plain_parts(self.order(), parts);
        assert forall|j: int| 0 <= j < parts.len() implies (#[trigger] parts[j]).index()
            == parts[j].entries().len() by {
            assert(settled(self.order(), &parts[j]));
        }
        assert(passed_of(parts) =~= lengths(rows_of(parts)));
        assert(left_of(parts) =~= zeros(rows_of(parts)));
    }

    /// A lawful and aligned merge that stands on an entry stands on a component that stands
    /// on that entry, within its entries.
    proof fn standing(&self)
        requires
            self.lawful(),
            self.aligned(),
            self.current_index() is Some,
        ensures
            0 <= self.current_index().unwrap() < self.components().len(),
            0 <= self.components()[self.current_index().unwrap()].index()
                < self.components()[self.current_index().unwrap()].entries().len(),
            self.peek() == entry_at(
                self.components()[self.current_index().unwrap()].entries(),
                self.components()[self.current_index().unwrap()].index(),
            ),
            cuts_fit(rows_of(self.components()), passed_of(self.components())),
            cuts_fit(rows_of(self.components()), left_of(self.components())),
    {
        let parts = self.components();
        let c = self.current_index().unwrap();
        plain_parts(self.order(), parts);
        assert(settled(self.order(), &parts[c]));
        parts[c].plain_peek();
        assert forall|j: int| 0 <= j < parts.len() implies 0 <= (#[trigger] passed_of(parts)[j])
            <= rows_of(parts)[j].len() && 0 <= left_of(parts)[j] <= rows_of(parts)[j].len() by {
            assert(settled(self.order(), &parts[j]));
            parts[j].plain_peek();
        }
    }

    /// The state at `t` of a pass forwards, for each `t` from the first step on.
    pub proof fn forward_pass_holds(run: Seq<Self>, t: int)
        requires
            Self::is_forward_pass(run),
            1 <= t < run.len(),
        ensures
            Self::passing_forwards(run, t),
        decreases t,
    {
        let before = run[t - 1];
        let after = run[t];
        let old_parts = before.components();
        let parts = after.components();
        let rows = rows_of(old_parts);
        assert(run[t - 1 + 1].is_next_of(&run[t - 1]));
        if t == 1 {
            after.next_skips_no_key(&before);
            before.spent();
            plain_parts(before.order(), old_parts);
            assert forall|j: int| 0 <= j < parts.len() implies (#[trigger] parts[j]).entries()
                == old_parts[j].entries() && parts[j].index() == 0 by {
                assert(settled(before.order(), &old_parts[j]));
                assert(moved_next(&old_parts[j], &parts[j]));
                assert(passed_of(old_parts)[j] == lengths(rows)[j]);
            }
            assert(rows_of(parts) =~= rows);
            assert(passed_of(parts) =~= zeros(rows));
            bags_at_the_ends(rows);
            Seq::<LentItem<'_, Iter>>::empty().to_multiset_ensures();
            assert(Self::yielded(run, 0) =~= Seq::empty());
            assert(forall|a: LentItem<'_, Iter>| !Seq::<LentItem<'_, Iter>>::empty().contains(a));
            assert(Self::yielded(run, 0).to_multiset() =~= Multiset::empty());
        } else {
            Self::forward_pass_holds(run, t - 1);
            after.next_skips_no_key(&before);
            let cuts = passed_of(old_parts);
            if before.current_index() is None {
                before.spent();
            }
            assert(before.current_index() is Some);
            before.standing();
            let c = before.current_index().unwrap();
            let p = old_parts[c].index();
            let turned = choose|turned: Self|
                {
                    &&& #[trigger] turned.is_turn_of(&before, true)
                    &&& after.others_kept(&turned, c)
                    &&& moved_next(&turned.components()[c], &after.components()[c])
                };
            assert(turned.components() =~= old_parts);
            assert forall|j: int| 0 <= j < parts.len() implies (#[trigger] parts[j]).entries()
                == old_parts[j].entries() && parts[j].index() == cuts.update(c, p + 1)[j] by {
                if j != c {
                    assert(parts[j] == turned.components()[j]);
                }
            }
            assert(rows_of(parts) =~= rows_of(old_parts));
            assert(passed_of(parts) =~= cuts.update(c, p + 1));
            front_grows(rows_of(old_parts), cuts, c);
            let item = before.peek().unwrap();
            assert(rows_of(old_parts)[c][p] == item);
            assert(Self::yielded(run, t - 1) =~= Self::yielded(run, t - 2).push(item));
            to_multiset_build(Self::yielded(run, t - 2), item);
            assert(cuts_fit(rows_of(parts), passed_of(parts)));
        }
    }

    /// Driving a lawful merge with `next` from the state that `reset` leaves it in yields
    /// each entry of each component once, in ascending order of the keys, and then nothing:
    /// the entries that the merge stands on, one after the other, are as a bag all the
    /// entries of the components, each key is the last one or greater, and after as many
    /// steps as there are entries the merge stands on no entry.
    pub proof fn forward_pass_yields_all(run: Seq<Self>)
        requires
            Self::is_forward_pass(run),
        ensures
            forall|t: int| 1 <= t < run.len() - 1 ==> (#[trigger] run[t]).current_index() is Some,
            run.last().current_index() is None,
            forall|t: int|
                1 <= t < run.len() - 2 ==> le(
                    run[0].order(),
                    (#[trigger] run[t]).current_key(),
                    run[t + 1].current_key(),
                ),
            Self::yielded(run, run.len() - 2).to_multiset() == whole_bag(
                rows_of(run[0].components()),
            ),
    {
        let n = run.len() - 2;
        let rows = rows_of(run[0].components());
        assert forall|t: int| 1 <= t < run.len() - 1 implies (#[trigger] run[t]).current_index()
            is Some by {
            Self::forward_pass_holds(run, t);
            if run[t].current_index() is None {
                run[t].spent();
            }
        }
        Self::forward_pass_holds(run, n + 1);
        let last = run.last();
        sum_is_bounded(rows, passed_of(last.components()));
        if last.current_index() is Some {
            last.standing();
            let c = last.current_index().unwrap();
            assert(passed_of(last.components())[c] == lengths(rows)[c]);
        }
        assert forall|t: int| 1 <= t < run.len() - 2 implies le(
            run[0].order(),
            (#[trigger] run[t]).current_key(),
            run[t + 1].current_key(),
        ) by {
            Self::forward_pass_holds(run, t);
            Self::forward_pass_holds(run, t + 1);
            assert(run[t + 1].is_next_of(&run[t]));
            run[t + 1].next_skips_no_key(&run[t]);
            if run[t].current_index() is None {
                run[t].spent();
            }
            if run[t + 1].current_index() is None {
                run[t + 1].spent();
            }
            plain_parts(run[t].order(), run[t].components());
            plain_parts(run[t + 1].order(), run[t + 1].components());
            let c = run[t].current_index().unwrap();
            let d = run[t + 1].current_index().unwrap();
            run[t].standing();
            run[t + 1].standing();
            assert(settled(run[t].order(), &run[t].components()[c]));
            assert(settled(run[t + 1].order(), &run[t + 1].components()[d]));
        }
    }

    /// The state at `t` of a pass backwards, for each `t` from the seek on.
    pub proof fn backward_pass_holds(run: Seq<Self>, t: int)
        requires
            Self::is_backward_pass(run),
            1 <= t < run.len(),
        ensures
            Self::passing_backwards(run, t),
        decreases t,
    {
        let before = run[t - 1];
        let after = run[t];
        let old_parts = before.components();
        let parts = after.components();
        if t == 1 {
            after.seek_to_last_finds_largest(&before);
            let rows = rows_of(parts);
            plain_parts(after.order(), parts);
            assert forall|j: int| 0 <= j < parts.len() implies #[trigger] left_of(parts)[j]
                == lengths(rows)[j] by {
                assert(settled(after.order(), &parts[j]));
                parts[j].plain_peek();
            }
            assert(left_of(parts) =~= lengths(rows));
            bags_at_the_ends(rows);
            Seq::<LentItem<'_, Iter>>::empty().to_multiset_ensures();
            assert(Self::yielded(run, 0) =~= Seq::empty());
            assert(forall|a: LentItem<'_, Iter>| !Seq::<LentItem<'_, Iter>>::empty().contains(a));
            assert(Self::yielded(run, 0).to_multiset() =~= Multiset::empty());
        } else {
            Self::backward_pass_holds(run, t - 1);
            assert(run[t - 1 + 1].is_prev_of(&run[t - 1]));
            after.prev_skips_no_key(&before);
            let cuts = left_of(old_parts);
            if before.current_index() is None {
                before.spent();
                bags_at_the_ends(rows_of(old_parts));
            }
            assert(before.current_index() is Some);
            before.standing();
            let c = before.current_index().unwrap();
            let p = old_parts[c].index();
            let turned = choose|turned: Self|
                {
                    &&& #[trigger] turned.is_turn_of(&before, false)
                    &&& after.others_kept(&turned, c)
                    &&& moved_prev(&turned.components()[c], &after.components()[c])
                };
            assert(turned.components() =~= old_parts);
            assert forall|j: int| 0 <= j < parts.len() implies (#[trigger] parts[j]).entries()
                == old_parts[j].entries() && left_of(parts)[j] == cuts.update(c, p)[j] by {
                if j != c {
                    assert(parts[j] == turned.components()[j]);
                }
            }
            assert(rows_of(parts) =~= rows_of(old_parts));
            assert(left_of(parts) =~= cuts.update(c, cuts[c] - 1));
            back_grows(rows_of(old_parts), cuts, c);
            let item = before.peek().unwrap();
            assert(rows_of(old_parts)[c][p] == item);
            assert(Self::yielded(run, t - 1) =~= Self::yielded(run, t - 2).push(item));
            to_multiset_build(Self::yielded(run, t - 2), item);
            assert(cuts_fit(rows_of(parts), left_of(parts)));
        }
    }

    /// Driving a lawful merge with `prev` from the state that `seek_to_last` leaves it in
    /// yields each entry of each component once, in descending order of the keys, and then
    /// nothing: the entries that the merge stands on, one after the other, are as a bag all
    /// the entries of the components, each key is the last one or smaller, and after as many
    /// steps as there are entries the merge stands on no entry.
    pub proof fn backward_pass_yields_all(run: Seq<Self>)
        requires
            Self::is_backward_pass(run),
        ensures
            forall|t: int| 1 <= t < run.len() - 1 ==> (#[trigger] run[t]).current_index() is Some,
            run.last().current_index() is None,
            forall|t: int|
                1 <= t < run.len() - 2 ==> le(
                    run[0].order(),
                    run[t + 1].current_key(),
                    (#[trigger] run[t]).current_key(),
                ),
            Self::yielded(run, run.len() - 2).to_multiset() == whole_bag(
                rows_of(run[1].components()),
            ),
    {
        let n = run.len() - 2;
        let rows = rows_of(run[1].components());
        bags_at_the_ends(rows);
        assert forall|t: int| 1 <= t < run.len() - 1 implies (#[trigger] run[t]).current_index()
            is Some by {
            Self::backward_pass_holds(run, t);
            if run[t].current_index() is None {
                run[t].spent();
            }
        }
        Self::backward_pass_holds(run, n + 1);
        let last = run.last();
        sum_is_bounded(rows, left_of(last.components()));
        if last.current_index() is Some {
            last.standing();
            let c = last.current_index().unwrap();
            assert(left_of(last.components())[c] == zeros(rows)[c]);
        }
        assert forall|t: int| 1 <= t < run.len() - 2 implies le(
            run[0].order(),
            run[t + 1].current_key(),
            (#[trigger] run[t]).current_key(),
        ) by {
            Self::backward_pass_holds(run, t);
            Self::backward_pass_holds(run, t + 1);
            assert(run[t + 1].is_prev_of(&run[t]));
            run[t + 1].prev_skips_no_key(&run[t]);
            let c = run[t].current_index().unwrap();
            let d = run[t + 1].current_index().unwrap();
            plain_parts(run[t].order(), run[t].components());
            plain_parts(run[t + 1].order(), run[t + 1].components());
            run[t].standing();
            run[t + 1].standing();
            assert(settled(run[t].order(), &run[t].components()[c]));
            assert(settled(run[t + 1].order(), &run[t + 1].components()[d]));
        }
    }
}

} // verus!
