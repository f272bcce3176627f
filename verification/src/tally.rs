use vstd::multiset::Multiset;
use vstd::prelude::*;
use vstd::seq_lib::{to_multiset_build, to_multiset_insert};

verus! {

/// The sum of the numbers of `cuts`.
pub open spec fn sum(cuts: Seq<int>) -> int
    decreases cuts.len(),
{
    if cuts.len() == 0 {
        0
    } else {
        sum(cuts.drop_last()) + cuts.last()
    }
}

/// The lengths of `rows`, row by row.
pub open spec fn lengths<T>(rows: Seq<Seq<T>>) -> Seq<int> {
    Seq::new(rows.len(), |j: int| rows[j].len() as int)
}

/// As many zeros as `rows` has rows.
pub open spec fn zeros<T>(rows: Seq<Seq<T>>) -> Seq<int> {
    Seq::new(rows.len(), |j: int| 0int)
}

/// Each number of `cuts` is a place to cut the row of `rows` that it belongs to.
pub open spec fn cuts_fit<T>(rows: Seq<Seq<T>>, cuts: Seq<int>) -> bool {
    &&& cuts.len() == rows.len()
    &&& forall|j: int| 0 <= j < rows.len() ==> 0 <= #[trigger] cuts[j] <= rows[j].len()
}

/// What stands in the rows before their cuts, as a bag.
pub open spec fn front_bag<T>(rows: Seq<Seq<T>>, cuts: Seq<int>) -> Multiset<T>
    decreases rows.len(),
{
    if rows.len() == 0 {
        Multiset::empty()
    } else {
        front_bag(rows.drop_last(), cuts.drop_last()).add(
            rows.last().take(cuts.last()).to_multiset(),
        )
    }
}

/// What stands in the rows from their cuts on, as a bag.
pub open spec fn back_bag<T>(rows: Seq<Seq<T>>, cuts: Seq<int>) -> Multiset<T>
    decreases rows.len(),
{
    if rows.len() == 0 {
        Multiset::empty()
    } else {
        back_bag(rows.drop_last(), cuts.drop_last()).add(
            rows.last().skip(cuts.last()).to_multiset(),
        )
    }
}

/// All that stands in the rows, as a bag.
pub open spec fn whole_bag<T>(rows: Seq<Seq<T>>) -> Multiset<T> {
    front_bag(rows, lengths(rows))
}

/// Moving one cut on by one adds one to the sum of the cuts, and to the bag before the cuts
/// what stood at the cut.
pub proof fn front_grows<T>(rows: Seq<Seq<T>>, cuts: Seq<int>, c: int)
    requires
        cuts.len() == rows.len(),
        0 <= c < rows.len(),
        0 <= cuts[c] < rows[c].len(),
    ensures
        sum(cuts.update(c, cuts[c] + 1)) == sum(cuts) + 1,
        front_bag(rows, cuts.update(c, cuts[c] + 1)) == front_bag(rows, cuts).insert(
            rows[c][cuts[c]],
        ),
    decreases rows.len(),
{
    let moved = cuts.update(c, cuts[c] + 1);
    let last = rows.len() - 1;
    if c == last {
        assert(moved.drop_last() =~= cuts.drop_last());
        let row = rows.last();
        let cut = cuts.last();
        assert(row.take(cut + 1) =~= row.take(cut).push(row[cut]));
        to_multiset_build(row.take(cut), row[cut]);
        assert(front_bag(rows, moved) =~= front_bag(rows, cuts).insert(row[cut]));
    } else {
        front_grows(rows.drop_last(), cuts.drop_last(), c);
        assert(moved.drop_last() =~= cuts.drop_last().update(c, cuts[c] + 1));
        assert(moved.last() == cuts.last());
        assert(rows.drop_last()[c] == rows[c]);
        assert(front_bag(rows, moved) =~= front_bag(rows, cuts).insert(rows[c][cuts[c]]));
    }
}

/// Moving one cut back by one takes one from the sum of the cuts, and adds to the bag from
/// the cuts on what stood before the cut.
pub proof fn back_grows<T>(rows: Seq<Seq<T>>, cuts: Seq<int>, c: int)
    requires
        cuts.len() == rows.len(),
        0 <= c < rows.len(),
        0 < cuts[c] <= rows[c].len(),
    ensures
        sum(cuts.update(c, cuts[c] - 1)) == sum(cuts) - 1,
        back_bag(rows, cuts.update(c, cuts[c] - 1)) == back_bag(rows, cuts).insert(
            rows[c][cuts[c] - 1],
        ),
    decreases rows.len(),
{
    let moved = cuts.update(c, cuts[c] - 1);
    let last = rows.len() - 1;
    if c == last {
        assert(moved.drop_last() =~= cuts.drop_last());
        let row = rows.last();
        let cut = cuts.last();
        assert(row.skip(cut - 1) =~= row.skip(cut).insert(0, row[cut - 1]));
        to_multiset_insert(row.skip(cut), 0, row[cut - 1]);
        assert(back_bag(rows, moved) =~= back_bag(rows, cuts).insert(row[cut - 1]));
    } else {
        back_grows(rows.drop_last(), cuts.drop_last(), c);
        assert(moved.drop_last() =~= cuts.drop_last().update(c, cuts[c] - 1));
        assert(moved.last() == cuts.last());
        assert(rows.drop_last()[c] == rows[c]);
        assert(back_bag(rows, moved) =~= back_bag(rows, cuts).insert(rows[c][cuts[c] - 1]));
    }
}

/// Cuts that fit the rows sum to no more than the lengths of the rows, and to as much only
/// where each cut stands at the end of its row; and to no less than nothing, and to nothing
/// only where each cut stands at the start of its row.
pub proof fn sum_is_bounded<T>(rows: Seq<Seq<T>>, cuts: Seq<int>)
    requires
        cuts_fit(rows, cuts),
    ensures
        0 <= sum(cuts) <= sum(lengths(rows)),
        sum(cuts) == sum(lengths(rows)) ==> cuts == lengths(rows),
        sum(cuts) == 0 ==> cuts == zeros(rows),
    decreases rows.len(),
{
    if rows.len() == 0 {
        assert(cuts =~= lengths(rows));
        assert(cuts =~= zeros(rows));
    } else {
        sum_is_bounded(rows.drop_last(), cuts.drop_last());
        assert(lengths(rows).drop_last() =~= lengths(rows.drop_last()));
        assert(zeros(rows).drop_last() =~= zeros(rows.drop_last()));
        assert(0 <= cuts.last() <= rows.last().len());
        if sum(cuts) == sum(lengths(rows)) {
            assert(cuts.drop_last() == lengths(rows).drop_last());
            assert(cuts =~= cuts.drop_last().push(cuts.last()));
            assert(lengths(rows) =~= lengths(rows).drop_last().push(lengths(rows).last()));
        }
        if sum(cuts) == 0 {
            assert(cuts.drop_last() == zeros(rows).drop_last());
            assert(cuts =~= cuts.drop_last().push(cuts.last()));
            assert(zeros(rows) =~= zeros(rows).drop_last().push(zeros(rows).last()));
        }
    }
}

/// Before cuts at the starts of the rows stands nothing, and from cuts at the ends of the
/// rows on stands nothing; from cuts at the starts on stands all.
pub proof fn bags_at_the_ends<T>(rows: Seq<Seq<T>>)
    ensures
        sum(zeros(rows)) == 0,
        front_bag(rows, zeros(rows)) == Multiset::<T>::empty(),
        back_bag(rows, lengths(rows)) == Multiset::<T>::empty(),
        back_bag(rows, zeros(rows)) == whole_bag(rows),
    decreases rows.len(),
{
    if rows.len() > 0 {
        bags_at_the_ends(rows.drop_last());
        assert(lengths(rows).drop_last() =~= lengths(rows.drop_last()));
        assert(zeros(rows).drop_last() =~= zeros(rows.drop_last()));
        let row = rows.last();
        assert(row.take(0) =~= Seq::<T>::empty());
        assert(row.skip(row.len() as int) =~= Seq::<T>::empty());
        assert(row.skip(0) =~= row.take(row.len() as int));
        Seq::<T>::empty().to_multiset_ensures();
        assert(forall|a: T| !Seq::<T>::empty().contains(a));
        assert(Seq::<T>::empty().to_multiset() =~= Multiset::<T>::empty());
        assert(front_bag(rows, zeros(rows)) =~= Multiset::<T>::empty());
        assert(back_bag(rows, lengths(rows)) =~= Multiset::<T>::empty());
        assert(back_bag(rows, zeros(rows)) =~= whole_bag(rows));
    }
}

} // verus!
