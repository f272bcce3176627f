use vstd::prelude::*;
use vstd::seq_lib::{lemma_multiset_commutative, to_multiset_build, to_multiset_insert};

use crate::tally::{lengths, whole_bag};

verus! {

/// `le` orders all values, some of them perhaps as equal: of two values one is before the
/// other or equal to it, and the relation is transitive.
pub open spec fn total_preorder<T>(le: spec_fn(T, T) -> bool) -> bool {
    &&& forall|a: T, b: T| #[trigger] le(a, b) || le(b, a)
    &&& forall|a: T, b: T, c: T| #[trigger] le(a, b) && #[trigger] le(b, c) ==> le(a, c)
}

/// No two elements of `s` compare as equal.
pub open spec fn distinct<T>(s: Seq<T>, le: spec_fn(T, T) -> bool) -> bool {
    forall|i: int, j: int|
        0 <= i < s.len() && 0 <= j < s.len() && i != j ==> !(#[trigger] le(s[i], s[j]) && le(
            s[j],
            s[i],
        ))
}

/// The number of elements of `s` that are strictly before `x`.
pub open spec fn rank<T>(s: Seq<T>, le: spec_fn(T, T) -> bool, x: T) -> int
    decreases s.len(),
{
    if s.len() == 0 {
        0
    } else {
        rank(s.drop_last(), le, x) + if le(x, s.last()) {
            0int
        } else {
            1int
        }
    }
}

/// The elements of `s` in order: each is put where as many stand before it as are strictly
/// before it.
pub open spec fn arrange<T>(s: Seq<T>, le: spec_fn(T, T) -> bool) -> Seq<T>
    decreases s.len(),
{
    if s.len() == 0 {
        Seq::empty()
    } else {
        let rest = arrange(s.drop_last(), le);
        rest.insert(rank(rest, le, s.last()), s.last())
    }
}

/// A rank is a number of elements.
pub proof fn rank_is_bounded<T>(s: Seq<T>, le: spec_fn(T, T) -> bool, x: T)
    ensures
        0 <= rank(s, le, x) <= s.len(),
    decreases s.len(),
{
    if s.len() > 0 {
        rank_is_bounded(s.drop_last(), le, x);
    }
}

/// One element more in `s` adds one to the rank of `x` if it is strictly before `x`, and
/// nothing if it is not, wherever it is put.
pub proof fn rank_after_insert<T>(s: Seq<T>, le: spec_fn(T, T) -> bool, x: T, i: int, y: T)
    requires
        0 <= i <= s.len(),
    ensures
        rank(s.insert(i, y), le, x) == rank(s, le, x) + if le(x, y) {
            0int
        } else {
            1int
        },
    decreases s.len(),
{
    let longer = s.insert(i, y);
    if i == s.len() {
        assert(longer.drop_last() =~= s);
        assert(longer.last() == y);
    } else {
        rank_after_insert(s.drop_last(), le, x, i, y);
        assert(longer.drop_last() =~= s.drop_last().insert(i, y));
        assert(longer.last() == s.last());
    }
}

/// Two values that each element of `s` is strictly before or not alike have one rank.
pub proof fn rank_is_shared<T>(s: Seq<T>, le: spec_fn(T, T) -> bool, a: T, b: T)
    requires
        forall|j: int| 0 <= j < s.len() ==> le(a, #[trigger] s[j]) == le(b, s[j]),
    ensures
        rank(s, le, a) == rank(s, le, b),
    decreases s.len(),
{
    if s.len() > 0 {
        assert(forall|j: int| 0 <= j < s.len() - 1 ==> s.drop_last()[j] == s[j]);
        rank_is_shared(s.drop_last(), le, a, b);
        assert(s.last() == s[s.len() - 1]);
    }
}

/// The rank of a value that no element of `s` is strictly before is nothing, and the rank of
/// one that every element is strictly before is the length of `s`.
pub proof fn rank_at_the_ends<T>(s: Seq<T>, le: spec_fn(T, T) -> bool, x: T)
    ensures
        (forall|j: int| 0 <= j < s.len() ==> le(x, #[trigger] s[j])) ==> rank(s, le, x) == 0,
        (forall|j: int| 0 <= j < s.len() ==> !le(x, #[trigger] s[j])) ==> rank(s, le, x)
            == s.len(),
    decreases s.len(),
{
    if s.len() > 0 {
        assert(forall|j: int| 0 <= j < s.len() - 1 ==> s.drop_last()[j] == s[j]);
        rank_at_the_ends(s.drop_last(), le, x);
        assert(s.last() == s[s.len() - 1]);
    }
}

/// A value that is before another or equal to it has no greater rank.
pub proof fn rank_is_monotone<T>(s: Seq<T>, le: spec_fn(T, T) -> bool, a: T, b: T)
    requires
        total_preorder(le),
        le(a, b),
    ensures
        rank(s, le, a) <= rank(s, le, b),
    decreases s.len(),
{
    if s.len() > 0 {
        rank_is_monotone(s.drop_last(), le, a, b);
        if le(b, s.last()) {
            assert(le(a, s.last()));
        }
    }
}

/// A value has a smaller rank than another if an element of `s` is strictly before the
/// second and not before the first.
pub proof fn rank_is_strict<T>(s: Seq<T>, le: spec_fn(T, T) -> bool, a: T, b: T, i: int)
    requires
        total_preorder(le),
        le(a, b),
        0 <= i < s.len(),
        le(a, s[i]),
        !le(b, s[i]),
    ensures
        rank(s, le, a) < rank(s, le, b),
    decreases s.len(),
{
    if i == s.len() - 1 {
        rank_is_monotone(s.drop_last(), le, a, b);
    } else {
        rank_is_strict(s.drop_last(), le, a, b, i);
        if le(b, s.last()) {
            assert(le(a, s.last()));
        }
    }
}

/// A value has the rank of another and one if one element of `s` is strictly before it and
/// not before the other, and every other element is strictly before both or before neither.
pub proof fn rank_is_next<T>(s: Seq<T>, le: spec_fn(T, T) -> bool, a: T, b: T, i: int)
    requires
        0 <= i < s.len(),
        le(a, s[i]),
        !le(b, s[i]),
        forall|j: int| 0 <= j < s.len() && j != i ==> le(a, #[trigger] s[j]) == le(b, s[j]),
    ensures
        rank(s, le, b) == rank(s, le, a) + 1,
    decreases s.len(),
{
    assert(forall|j: int| 0 <= j < s.len() - 1 ==> s.drop_last()[j] == s[j]);
    assert(s.last() == s[s.len() - 1]);
    if i == s.len() - 1 {
        rank_is_shared(s.drop_last(), le, a, b);
    } else {
        rank_is_next(s.drop_last(), le, a, b, i);
    }
}

/// A value has the last rank in `s` if one element of `s` is not strictly before it and
/// every other element is.
pub proof fn rank_is_last<T>(s: Seq<T>, le: spec_fn(T, T) -> bool, x: T, i: int)
    requires
        0 <= i < s.len(),
        le(x, s[i]),
        forall|j: int| 0 <= j < s.len() && j != i ==> !le(x, #[trigger] s[j]),
    ensures
        rank(s, le, x) == s.len() - 1,
    decreases s.len(),
{
    assert(forall|j: int| 0 <= j < s.len() - 1 ==> s.drop_last()[j] == s[j]);
    assert(s.last() == s[s.len() - 1]);
    if i == s.len() - 1 {
        rank_at_the_ends(s.drop_last(), le, x);
    } else {
        rank_is_last(s.drop_last(), le, x, i);
    }
}

/// The rank of a value is less than the length of `s` if an element of `s` is not strictly
/// before it.
pub proof fn rank_leaves_one<T>(s: Seq<T>, le: spec_fn(T, T) -> bool, x: T, i: int)
    requires
        0 <= i < s.len(),
        le(x, s[i]),
    ensures
        rank(s, le, x) < s.len(),
    decreases s.len(),
{
    if i == s.len() - 1 {
        rank_is_bounded(s.drop_last(), le, x);
    } else {
        rank_leaves_one(s.drop_last(), le, x, i);
    }
}

/// To arrange a sequence changes neither its length, nor what is in it, nor the rank of any
/// value in it.
pub proof fn arrange_keeps<T>(s: Seq<T>, le: spec_fn(T, T) -> bool)
    ensures
        arrange(s, le).len() == s.len(),
        arrange(s, le).to_multiset() == s.to_multiset(),
        forall|x: T| #[trigger] rank(arrange(s, le), le, x) == rank(s, le, x),
    decreases s.len(),
{
    if s.len() == 0 {
        assert(s =~= Seq::empty());
    } else {
        let front = s.drop_last();
        let rest = arrange(front, le);
        let at = rank(rest, le, s.last());
        arrange_keeps(front, le);
        rank_is_bounded(rest, le, s.last());
        assert(s =~= front.push(s.last()));
        to_multiset_build(front, s.last());
        to_multiset_insert(rest, at, s.last());
        assert forall|x: T| #[trigger] rank(arrange(s, le), le, x) == rank(s, le, x) by {
            rank_after_insert(rest, le, x, at, s.last());
            assert(rank(rest, le, x) == rank(front, le, x));
        }
    }
}

/// Each element of the arranged sequence is an element of the sequence, and each element of
/// the sequence one of the arranged sequence.
pub proof fn arrange_has_the_same<T>(s: Seq<T>, le: spec_fn(T, T) -> bool)
    ensures
        forall|r: int|
            0 <= r < s.len() ==> exists|k: int|
                0 <= k < s.len() && s[k] == #[trigger] arrange(s, le)[r],
        forall|k: int|
            0 <= k < s.len() ==> exists|r: int|
                0 <= r < s.len() && arrange(s, le)[r] == #[trigger] s[k],
{
    let arranged = arrange(s, le);
    arrange_keeps(s, le);
    s.to_multiset_ensures();
    arranged.to_multiset_ensures();
    assert forall|r: int| 0 <= r < s.len() implies exists|k: int|
        0 <= k < s.len() && s[k] == #[trigger] arranged[r] by {
        assert(arranged.contains(arranged[r]));
        assert(s.to_multiset().count(arranged[r]) > 0);
        assert(s.contains(arranged[r]));
    }
    assert forall|k: int| 0 <= k < s.len() implies exists|r: int|
        0 <= r < s.len() && arranged[r] == #[trigger] s[k] by {
        assert(s.contains(s[k]));
        assert(arranged.to_multiset().count(s[k]) > 0);
        assert(arranged.contains(s[k]));
    }
}

/// In the arranged sequence of elements that are distinct, each element stands where its
/// rank says.
pub proof fn arrange_puts_by_rank<T>(s: Seq<T>, le: spec_fn(T, T) -> bool)
    requires
        total_preorder(le),
        distinct(s, le),
    ensures
        forall|r: int| 0 <= r < s.len() ==> rank(s, le, #[trigger] arrange(s, le)[r]) == r,
    decreases s.len(),
{
    if s.len() > 0 {
        let front = s.drop_last();
        let last = s.last();
        let rest = arrange(front, le);
        let at = rank(rest, le, last);
        let arranged = arrange(s, le);
        assert(forall|j: int| 0 <= j < front.len() ==> front[j] == s[j]);
        assert(distinct(front, le));
        arrange_puts_by_rank(front, le);
        arrange_keeps(front, le);
        arrange_has_the_same(front, le);
        rank_is_bounded(rest, le, last);
        assert(at == rank(front, le, last));
        assert(le(last, last));
        assert forall|r: int| 0 <= r < s.len() implies rank(s, le, #[trigger] arranged[r])
            == r by {
            if r < at {
                let e = rest[r];
                assert(arranged[r] == e);
                assert(rank(front, le, e) == r);
                if !le(e, last) {
                    assert(le(last, e));
                    rank_is_monotone(front, le, last, e);
                }
            } else if r == at {
                assert(arranged[r] == last);
            } else {
                let e = rest[r - 1];
                assert(arranged[r] == e);
                assert(rank(front, le, e) == r - 1);
                if le(e, last) {
                    let k = choose|k: int| 0 <= k < front.len() && front[k] == rest[r - 1];
                    assert(s[k] == e);
                    assert(s[s.len() - 1] == last);
                    assert(!(le(s[k], s[s.len() - 1]) && le(s[s.len() - 1], s[k])));
                    assert(le(e, e));
                    rank_is_strict(front, le, e, last, k);
                }
            }
        }
    }
}

/// In the arranged sequence of elements that are distinct, each element of the sequence
/// stands at its rank.
pub proof fn arrange_finds<T>(s: Seq<T>, le: spec_fn(T, T) -> bool, k: int)
    requires
        total_preorder(le),
        distinct(s, le),
        0 <= k < s.len(),
    ensures
        0 <= rank(s, le, s[k]) < s.len(),
        arrange(s, le)[rank(s, le, s[k])] == s[k],
{
    arrange_has_the_same(s, le);
    arrange_puts_by_rank(s, le);
    let r = choose|r: int| 0 <= r < s.len() && arrange(s, le)[r] == s[k];
    assert(rank(s, le, arrange(s, le)[r]) == r);
}

/// The arranged sequence of elements that are distinct is in order.
pub proof fn arrange_is_in_order<T>(s: Seq<T>, le: spec_fn(T, T) -> bool)
    requires
        total_preorder(le),
        distinct(s, le),
    ensures
        forall|r: int, t: int|
            0 <= r <= t < s.len() ==> le(#[trigger] arrange(s, le)[r], #[trigger] arrange(s, le)[t]),
{
    let arranged = arrange(s, le);
    arrange_puts_by_rank(s, le);
    assert forall|r: int, t: int| 0 <= r <= t < s.len() implies le(
        #[trigger] arranged[r],
        #[trigger] arranged[t],
    ) by {
        if !le(arranged[r], arranged[t]) {
            assert(le(arranged[t], arranged[r]));
            rank_is_monotone(s, le, arranged[t], arranged[r]);
            assert(le(arranged[r], arranged[r]));
        }
    }
}

/// The rows of `rows`, one after the other.
pub open spec fn flat<T>(rows: Seq<Seq<T>>) -> Seq<T>
    decreases rows.len(),
{
    if rows.len() == 0 {
        Seq::empty()
    } else {
        flat(rows.drop_last()) + rows.last()
    }
}

/// Where the row at `j` begins in the flat sequence.
pub open spec fn offset<T>(rows: Seq<Seq<T>>, j: int) -> int {
    flat(rows.take(j)).len() as int
}

/// Each row begins where the row before it ends.
pub proof fn offset_steps<T>(rows: Seq<Seq<T>>, j: int)
    requires
        0 <= j < rows.len(),
    ensures
        offset(rows, j + 1) == offset(rows, j) + rows[j].len(),
        offset(rows, 0) == 0,
        offset(rows, rows.len() as int) == flat(rows).len(),
{
    assert(rows.take(j + 1).drop_last() =~= rows.take(j));
    assert(rows.take(j + 1).last() == rows[j]);
    assert(rows.take(0) =~= Seq::<Seq<T>>::empty());
    assert(rows.take(rows.len() as int) =~= rows);
}

/// A later row begins where an earlier one has ended, or after that.
pub proof fn offsets_rise<T>(rows: Seq<Seq<T>>, j: int, k: int)
    requires
        0 <= j < k <= rows.len(),
    ensures
        offset(rows, j) + rows[j].len() <= offset(rows, k),
    decreases k,
{
    if k == j + 1 {
        offset_steps(rows, j);
    } else {
        offsets_rise(rows, j, k - 1);
        offset_steps(rows, k - 1);
    }
}

/// What stands at `q` in the row at `j` stands that far after the beginning of the row in
/// the flat sequence.
pub proof fn flat_has<T>(rows: Seq<Seq<T>>, j: int, q: int)
    requires
        0 <= j < rows.len(),
        0 <= q < rows[j].len(),
    ensures
        0 <= offset(rows, j) + q < flat(rows).len(),
        flat(rows)[offset(rows, j) + q] == rows[j][q],
    decreases rows.len(),
{
    let last = rows.len() - 1;
    if j == last {
        assert(rows.take(j) =~= rows.drop_last());
    } else {
        flat_has(rows.drop_last(), j, q);
        assert(rows.drop_last().take(j) =~= rows.take(j));
    }
}

/// What stands in the flat sequence stands in a row, as far after its beginning.
pub proof fn flat_is_from<T>(rows: Seq<Seq<T>>, i: int) -> (slot: (int, int))
    requires
        0 <= i < flat(rows).len(),
    ensures
        0 <= slot.0 < rows.len(),
        0 <= slot.1 < rows[slot.0].len(),
        offset(rows, slot.0) + slot.1 == i,
        rows[slot.0][slot.1] == flat(rows)[i],
    decreases rows.len(),
{
    let last = rows.len() - 1;
    let front = flat(rows.drop_last());
    if i < front.len() {
        let slot = flat_is_from(rows.drop_last(), i);
        assert(rows.drop_last().take(slot.0) =~= rows.take(slot.0));
        slot
    } else {
        assert(rows.take(last) =~= rows.drop_last());
        (last, i - front.len())
    }
}

/// Two different places in the rows are two different places in the flat sequence.
pub proof fn flat_keeps_apart<T>(rows: Seq<Seq<T>>, j: int, q: int, k: int, r: int)
    requires
        0 <= j < rows.len(),
        0 <= q < rows[j].len(),
        0 <= k < rows.len(),
        0 <= r < rows[k].len(),
        j != k || q != r,
    ensures
        offset(rows, j) + q != offset(rows, k) + r,
{
    if j < k {
        offsets_rise(rows, j, k);
    } else if k < j {
        offsets_rise(rows, k, j);
    }
}

/// What stands in the flat sequence is, as a bag, all that stands in the rows.
pub proof fn flat_is_the_whole<T>(rows: Seq<Seq<T>>)
    ensures
        flat(rows).to_multiset() == whole_bag(rows),
    decreases rows.len(),
{
    if rows.len() == 0 {
        flat(rows).to_multiset_ensures();
        assert(forall|a: T| !flat(rows).contains(a));
        assert(flat(rows).to_multiset() =~= whole_bag(rows));
    } else {
        let row = rows.last();
        flat_is_the_whole(rows.drop_last());
        lemma_multiset_commutative(flat(rows.drop_last()), row);
        assert(lengths(rows).drop_last() =~= lengths(rows.drop_last()));
        assert(row.take(row.len() as int) =~= row);
        assert(flat(rows).to_multiset() =~= whole_bag(rows));
    }
}

} // verus!
