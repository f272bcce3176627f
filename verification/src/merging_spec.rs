use vstd::prelude::*;

use crate::comparator::{equiv, le, lt, same_order, total_order, Comparator};
use crate::cursor::{moved_next, CursorLendingIterator};
use crate::lending_iterator_support::LentItem;
use crate::ranking::{arrange, distinct, flat, rank};
use crate::seekable::{in_order, sought, ItemToKey, Seekable};

verus! {

/// The key under the cursor of `it`, where it stands on an entry.
pub open spec fn head<Key: ?Sized, I: CursorLendingIterator + ItemToKey<Key>>(it: &I) -> &Key {
    I::key_of(it.peek().unwrap())
}

/// `after` is `before` moved strictly past `bound`, as a change of direction to forwards moves
/// it: by a `seek(bound)`, and by one `next` more where `skip` says that the seek came to rest
/// on a key that compares as equal to `bound`.
pub open spec fn sought_past<Key, Cmp, I>(
    order: &Cmp,
    before: &I,
    after: &I,
    bound: &Key,
) -> bool where
    Key: ?Sized,
    Cmp: Comparator<Key>,
    I: CursorLendingIterator + Seekable<Key, Cmp> + ItemToKey<Key>,
 {
    exists|mid: I, skip: bool|
        {
            &&& #[trigger] sought(before, &mid, bound)
            &&& mid.peek() is None ==> !skip
            &&& mid.peek() is Some && order.obeys() ==> skip == equiv(order, bound, head(&mid))
            &&& #[trigger] passed(&mid, after, skip)
        }
}

/// `after` is `mid` moved by one `next` where `skip` holds, and `mid` itself where it does not.
pub open spec fn passed<I: CursorLendingIterator>(mid: &I, after: &I, skip: bool) -> bool {
    if skip {
        moved_next(mid, after)
    } else {
        *after == *mid
    }
}

/// What a merge asks of the type of its components: that what such an iterator says of itself
/// as a cursor and what it says of itself as seekable are one account. It is plain exactly if
/// it is sorted; and then its place is its index, and its keys are the keys of its entries.
/// Two such iterators over the same collection have the same entries, and the same
/// comparator.
pub open spec fn kindred<Key, Cmp, I>() -> bool where
    Key: ?Sized,
    Cmp: Comparator<Key>,
    I: CursorLendingIterator + Seekable<Key, Cmp> + ItemToKey<Key>,
 {
    &&& forall|it: I|
        #![trigger it.plain()]
        #![trigger it.sorted()]
        {
            &&& it.plain() == it.sorted()
            &&& it.plain() ==> it.place() == it.index()
            &&& it.plain() ==> it.keys().len() == it.entries().len()
            &&& it.plain() ==> forall|q: int|
                0 <= q < it.keys().len() ==> #[trigger] it.keys()[q] == I::key_of(it.entries()[q])
        }
    &&& forall|a: I, b: I|
        a.plain() && b.plain() && #[trigger] b.same_collection(&a) ==> b.entries() == a.entries()
    &&& forall|a: I, b: I|
        a.plain() && b.plain() && #[trigger] b.same_source(&a) ==> b.comparator()
            == a.comparator()
}

/// A component is fit for a merge in `order`: it is a plain cursor, and its comparator gives
/// the answers that `order` gives.
pub open spec fn fit<Key, Cmp, I>(order: &Cmp, it: &I) -> bool where
    Key: ?Sized,
    Cmp: Comparator<Key>,
    I: CursorLendingIterator + Seekable<Key, Cmp> + ItemToKey<Key>,
 {
    &&& it.plain()
    &&& same_order(it.comparator(), order)
}

/// The components and the comparator of a merge are fit for it: the comparator is a total
/// order, the components are plain cursors of a kindred type, and the comparator of each
/// gives the answers that the comparator of the merge gives.
pub open spec fn lawful<Key, Cmp, I>(order: &Cmp, parts: Seq<I>) -> bool where
    Key: ?Sized,
    Cmp: Comparator<Key>,
    I: CursorLendingIterator + Seekable<Key, Cmp> + ItemToKey<Key>,
 {
    &&& total_order(order)
    &&& kindred::<Key, Cmp, I>()
    &&& forall|j: int| 0 <= j < parts.len() ==> fit(order, &#[trigger] parts[j])
}

/// What a component that is fit for the merge says of itself, in the words of its keys: they
/// are in the order of the merge, it stands among them or at the phantom position, and where
/// it stands on an entry, the key under it is the key at its place.
pub open spec fn settled<Key, Cmp, I>(order: &Cmp, it: &I) -> bool where
    Key: ?Sized,
    Cmp: Comparator<Key>,
    I: CursorLendingIterator + Seekable<Key, Cmp> + ItemToKey<Key>,
 {
    &&& fit(order, it)
    &&& it.sorted()
    &&& 0 <= it.place() <= it.keys().len()
    &&& in_order(order, it.keys())
    &&& it.peek() is Some <==> it.place() < it.keys().len()
    &&& it.place() < it.keys().len() ==> head(it) == it.keys()[it.place()]
}

/// The smallest key of a component that is `bound` or greater is the key that the component
/// at `at` stands on. Where `at` is nothing: every key of a component sorts strictly before
/// `bound`.
pub open spec fn least_from<Key, Cmp, I>(
    order: &Cmp,
    parts: Seq<I>,
    bound: &Key,
    at: Option<int>,
) -> bool where Key: ?Sized, Cmp: Comparator<Key>, I: Seekable<Key, Cmp> {
    match at {
        None => forall|j: int, q: int|
            0 <= j < parts.len() && 0 <= q < parts[j].keys().len() ==> lt(
                order,
                #[trigger] parts[j].keys()[q],
                bound,
            ),
        Some(c) => {
            &&& 0 <= c < parts.len()
            &&& 0 <= parts[c].place() < parts[c].keys().len()
            &&& le(order, bound, parts[c].keys()[parts[c].place()])
            &&& forall|j: int, q: int|
                0 <= j < parts.len() && 0 <= q < parts[j].keys().len() && le(
                    order,
                    bound,
                    #[trigger] parts[j].keys()[q],
                ) ==> le(order, parts[c].keys()[parts[c].place()], parts[j].keys()[q])
        },
    }
}

/// The greatest key of a component that sorts strictly before `bound` is the key that the
/// component at `at` stands on. Where `at` is nothing: no key of a component sorts strictly
/// before `bound`.
pub open spec fn greatest_before<Key, Cmp, I>(
    order: &Cmp,
    parts: Seq<I>,
    bound: &Key,
    at: Option<int>,
) -> bool where Key: ?Sized, Cmp: Comparator<Key>, I: Seekable<Key, Cmp> {
    match at {
        None => forall|j: int, q: int|
            0 <= j < parts.len() && 0 <= q < parts[j].keys().len() ==> le(
                order,
                bound,
                #[trigger] parts[j].keys()[q],
            ),
        Some(c) => {
            &&& 0 <= c < parts.len()
            &&& 0 <= parts[c].place() < parts[c].keys().len()
            &&& lt(order, parts[c].keys()[parts[c].place()], bound)
            &&& forall|j: int, q: int|
                0 <= j < parts.len() && 0 <= q < parts[j].keys().len() && lt(
                    order,
                    #[trigger] parts[j].keys()[q],
                    bound,
                ) ==> le(order, parts[j].keys()[q], parts[c].keys()[parts[c].place()])
        },
    }
}

/// The key at the place of `it`: the key that it stands on, where it stands on one.
pub open spec fn key_under<Key, Cmp, I>(it: &I) -> &Key where
    Key: ?Sized,
    Cmp: ?Sized + Comparator<Key>,
    I: Seekable<Key, Cmp>,
 {
    it.keys()[it.place()]
}

/// Component for component, `after` has the keys of `before`.
pub open spec fn keys_kept<Key, Cmp, I>(before: Seq<I>, after: Seq<I>) -> bool where
    Key: ?Sized,
    Cmp: Comparator<Key>,
    I: Seekable<Key, Cmp>,
 {
    &&& after.len() == before.len()
    &&& forall|j: int| 0 <= j < before.len() ==> (#[trigger] after[j]).keys() == before[j].keys()
}

/// Component for component, `after` has the entries of `before`.
pub open spec fn entries_kept<I: CursorLendingIterator>(before: Seq<I>, after: Seq<I>) -> bool {
    &&& after.len() == before.len()
    &&& forall|j: int|
        0 <= j < before.len() ==> (#[trigger] after[j]).entries() == before[j].entries()
}

/// Each key that `it` has left behind on its way forwards is `bound` or less, or compares
/// as equal to the key that `it` stands on.
pub open spec fn ahead_of<Key, Cmp, I>(order: &Cmp, it: &I, bound: &Key) -> bool where
    Key: ?Sized,
    Cmp: Comparator<Key>,
    I: Seekable<Key, Cmp>,
 {
    forall|q: int|
        0 <= q < it.place() && q < it.keys().len() ==> le(order, #[trigger] it.keys()[q], bound) || (
        it.place() < it.keys().len() && le(order, it.keys()[it.place()], it.keys()[q]))
}

/// Each key that `it` has left behind on its way backwards is `bound` or greater, or compares
/// as equal to the key that `it` stands on.
pub open spec fn behind_of<Key, Cmp, I>(order: &Cmp, it: &I, bound: &Key) -> bool where
    Key: ?Sized,
    Cmp: Comparator<Key>,
    I: Seekable<Key, Cmp>,
 {
    forall|q: int|
        0 <= q < it.keys().len() && (it.place() < q || it.place() >= it.keys().len()) ==> le(
            order,
            bound,
            #[trigger] it.keys()[q],
        ) || (it.place() < it.keys().len() && le(order, it.keys()[q], it.keys()[it.place()]))
}

/// The component at `c` stands on a key, no component stands on a key that sorts strictly
/// before it, and each component is ahead of it.
pub open spec fn poised_forwards<Key, Cmp, I>(order: &Cmp, parts: Seq<I>, c: int) -> bool where
    Key: ?Sized,
    Cmp: Comparator<Key>,
    I: Seekable<Key, Cmp>,
 {
    &&& 0 <= c < parts.len()
    &&& 0 <= parts[c].place() < parts[c].keys().len()
    &&& forall|j: int|
        0 <= j < parts.len() ==> ahead_of(
            order,
            &#[trigger] parts[j],
            parts[c].keys()[parts[c].place()],
        )
    &&& forall|j: int|
        0 <= j < parts.len() && 0 <= (#[trigger] parts[j]).place() < parts[j].keys().len() ==> le(
            order,
            parts[c].keys()[parts[c].place()],
            parts[j].keys()[parts[j].place()],
        )
}

/// The component at `c` stands on a key, no component stands on a key that sorts strictly
/// after it, and each component is behind it.
pub open spec fn poised_backwards<Key, Cmp, I>(order: &Cmp, parts: Seq<I>, c: int) -> bool where
    Key: ?Sized,
    Cmp: Comparator<Key>,
    I: Seekable<Key, Cmp>,
 {
    &&& 0 <= c < parts.len()
    &&& 0 <= parts[c].place() < parts[c].keys().len()
    &&& forall|j: int|
        0 <= j < parts.len() ==> behind_of(
            order,
            &#[trigger] parts[j],
            parts[c].keys()[parts[c].place()],
        )
    &&& forall|j: int|
        0 <= j < parts.len() && 0 <= (#[trigger] parts[j]).place() < parts[j].keys().len() ==> le(
            order,
            parts[j].keys()[parts[j].place()],
            parts[c].keys()[parts[c].place()],
        )
}

/// The state that a merge keeps between calls. Where it stands on no entry, every component
/// is at its phantom position. Where it stands on the component at `c`: if its direction is
/// forwards, that is the first component on the smallest key, and the components are ahead of
/// that key; if its direction is backwards, that is the last component on the largest key,
/// and the components are behind that key.
pub open spec fn aligned<Key, Cmp, I>(
    order: &Cmp,
    parts: Seq<I>,
    at: Option<int>,
    forwards: bool,
) -> bool where
    Key: ?Sized,
    Cmp: Comparator<Key>,
    I: CursorLendingIterator + Seekable<Key, Cmp> + ItemToKey<Key>,
 {
    match at {
        None => forall|j: int|
            0 <= j < parts.len() ==> (#[trigger] parts[j]).place() == parts[j].keys().len(),
        Some(c) => if forwards {
            smallest_at(order, parts, at) && poised_forwards(order, parts, c)
        } else {
            largest_at(order, parts, at) && poised_backwards(order, parts, c)
        },
    }
}

/// No key of a component sorts strictly between `low` and `high`.
pub open spec fn nothing_between<Key, Cmp, I>(
    order: &Cmp,
    parts: Seq<I>,
    low: &Key,
    high: &Key,
) -> bool where Key: ?Sized, Cmp: Comparator<Key>, I: Seekable<Key, Cmp> {
    forall|j: int, q: int|
        0 <= j < parts.len() && 0 <= q < parts[j].keys().len() ==> !(lt(
            order,
            low,
            #[trigger] parts[j].keys()[q],
        ) && lt(order, parts[j].keys()[q], high))
}

/// No key of a component sorts strictly after `low`.
pub open spec fn nothing_above<Key, Cmp, I>(order: &Cmp, parts: Seq<I>, low: &Key) -> bool where
    Key: ?Sized,
    Cmp: Comparator<Key>,
    I: Seekable<Key, Cmp>,
 {
    forall|j: int, q: int|
        0 <= j < parts.len() && 0 <= q < parts[j].keys().len() ==> le(
            order,
            #[trigger] parts[j].keys()[q],
            low,
        )
}

/// No key of a component sorts strictly before `high`.
pub open spec fn nothing_below<Key, Cmp, I>(order: &Cmp, parts: Seq<I>, high: &Key) -> bool where
    Key: ?Sized,
    Cmp: Comparator<Key>,
    I: Seekable<Key, Cmp>,
 {
    forall|j: int, q: int|
        0 <= j < parts.len() && 0 <= q < parts[j].keys().len() ==> le(
            order,
            high,
            #[trigger] parts[j].keys()[q],
        )
}

/// What a step forwards of a merge does to the key that it stands on: where it stood on a
/// key and stands on one, the second is not smaller, and no key of a component sorts
/// strictly between the two; where it stood on a key and stands on none, no key is greater
/// than the first; where it stood on none and stands on one, no key is smaller than that;
/// where it stood on none and stands on none, there are no keys.
pub open spec fn steps_up<Key, Cmp, I>(
    order: &Cmp,
    before: Seq<I>,
    from: Option<int>,
    after: Seq<I>,
    to: Option<int>,
) -> bool where Key: ?Sized, Cmp: Comparator<Key>, I: Seekable<Key, Cmp> {
    match (from, to) {
        (Some(c), Some(d)) => le(order, key_under(&before[c]), key_under(&after[d]))
            && nothing_between(order, after, key_under(&before[c]), key_under(&after[d])),
        (Some(c), None) => nothing_above(order, after, key_under(&before[c])),
        (None, Some(d)) => nothing_below(order, after, key_under(&after[d])),
        (None, None) => no_keys(after),
    }
}

/// What a step backwards of a merge does to the key that it stands on: where it stood on a
/// key and stands on one, the second is not greater, and no key of a component sorts
/// strictly between the two; where it stood on a key and stands on none, no key is smaller
/// than the first; where it stood on none and stands on one, no key is greater than that;
/// where it stood on none and stands on none, there are no keys.
pub open spec fn steps_down<Key, Cmp, I>(
    order: &Cmp,
    before: Seq<I>,
    from: Option<int>,
    after: Seq<I>,
    to: Option<int>,
) -> bool where Key: ?Sized, Cmp: Comparator<Key>, I: Seekable<Key, Cmp> {
    match (from, to) {
        (Some(c), Some(d)) => le(order, key_under(&after[d]), key_under(&before[c]))
            && nothing_between(order, after, key_under(&after[d]), key_under(&before[c])),
        (Some(c), None) => nothing_below(order, after, key_under(&before[c])),
        (None, Some(d)) => nothing_above(order, after, key_under(&after[d])),
        (None, None) => no_keys(after),
    }
}

/// No component has a key.
pub open spec fn no_keys<Key, Cmp, I>(parts: Seq<I>) -> bool where
    Key: ?Sized,
    Cmp: Comparator<Key>,
    I: Seekable<Key, Cmp>,
 {
    forall|j: int| 0 <= j < parts.len() ==> (#[trigger] parts[j]).keys().len() == 0
}

/// Among the components from `low` up to `high`, the one at `at` stands on an entry, no other
/// stands on a key that sorts strictly before the key that it stands on, and none before it on
/// a key that compares as equal to that key. Where `at` is nothing: none of them stands on an
/// entry.
pub open spec fn smallest_among<Key, Cmp, I>(
    order: &Cmp,
    parts: Seq<I>,
    low: int,
    high: int,
    at: Option<int>,
) -> bool where
    Key: ?Sized,
    Cmp: Comparator<Key>,
    I: CursorLendingIterator + ItemToKey<Key>,
 {
    match at {
        None => forall|j: int| low <= j < high ==> (#[trigger] parts[j]).peek() is None,
        Some(c) => {
            &&& low <= c < high
            &&& parts[c].peek() is Some
            &&& forall|j: int|
                low <= j < high && (#[trigger] parts[j]).peek() is Some ==> le(
                    order,
                    head(&parts[c]),
                    head(&parts[j]),
                )
            &&& forall|j: int|
                low <= j < c && (#[trigger] parts[j]).peek() is Some ==> lt(
                    order,
                    head(&parts[c]),
                    head(&parts[j]),
                )
        },
    }
}

/// Among the components from `low` up to `high`, the one at `at` stands on an entry, no other
/// stands on a key that sorts strictly after the key that it stands on, and none after it on a
/// key that compares as equal to that key. Where `at` is nothing: none of them stands on an
/// entry.
pub open spec fn largest_among<Key, Cmp, I>(
    order: &Cmp,
    parts: Seq<I>,
    low: int,
    high: int,
    at: Option<int>,
) -> bool where
    Key: ?Sized,
    Cmp: Comparator<Key>,
    I: CursorLendingIterator + ItemToKey<Key>,
 {
    match at {
        None => forall|j: int| low <= j < high ==> (#[trigger] parts[j]).peek() is None,
        Some(c) => {
            &&& low <= c < high
            &&& parts[c].peek() is Some
            &&& forall|j: int|
                low <= j < high && (#[trigger] parts[j]).peek() is Some ==> le(
                    order,
                    head(&parts[j]),
                    head(&parts[c]),
                )
            &&& forall|j: int|
                c < j < high && (#[trigger] parts[j]).peek() is Some ==> lt(
                    order,
                    head(&parts[j]),
                    head(&parts[c]),
                )
        },
    }
}

/// The smallest key that a component stands on is that of the component at `at`, the first
/// of those that stand on it.
pub open spec fn smallest_at<Key, Cmp, I>(order: &Cmp, parts: Seq<I>, at: Option<int>) -> bool where
    Key: ?Sized,
    Cmp: Comparator<Key>,
    I: CursorLendingIterator + ItemToKey<Key>,
 {
    smallest_among(order, parts, 0, parts.len() as int, at)
}

/// The largest key that a component stands on is that of the component at `at`, the last of
/// those that stand on it.
pub open spec fn largest_at<Key, Cmp, I>(order: &Cmp, parts: Seq<I>, at: Option<int>) -> bool where
    Key: ?Sized,
    Cmp: Comparator<Key>,
    I: CursorLendingIterator + ItemToKey<Key>,
 {
    largest_among(order, parts, 0, parts.len() as int, at)
}

/// Among the components from `low` up to `high`, `at` names one that stands on an entry, or
/// is nothing where none does.
pub open spec fn stands_among<I: CursorLendingIterator>(
    parts: Seq<I>,
    low: int,
    high: int,
    at: Option<int>,
) -> bool {
    match at {
        None => forall|j: int| low <= j < high ==> (#[trigger] parts[j]).peek() is None,
        Some(c) => low <= c < high && parts[c].peek() is Some,
    }
}

/// `at` names a component that stands on an entry, or is nothing where none does.
pub open spec fn stands_at<I: CursorLendingIterator>(parts: Seq<I>, at: Option<int>) -> bool {
    stands_among(parts, 0, parts.len() as int, at)
}

/// The entries of the components, component by component.
pub open spec fn rows_of<'a, I: CursorLendingIterator>(parts: Seq<I>) -> Seq<Seq<LentItem<'a, I>>> {
    Seq::new(parts.len(), |j: int| parts[j].entries())
}

/// How many entries each component has behind it on its way forwards: its index.
pub open spec fn passed_of<I: CursorLendingIterator>(parts: Seq<I>) -> Seq<int> {
    Seq::new(parts.len(), |j: int| parts[j].index())
}

/// How many entries each component has before it on its way backwards, the entry that it
/// stands on among them: none at the phantom position, and else its index and one.
pub open spec fn left_of<I: CursorLendingIterator>(parts: Seq<I>) -> Seq<int> {
    Seq::new(
        parts.len(),
        |j: int|
            if parts[j].index() >= parts[j].entries().len() {
                0
            } else {
                parts[j].index() + 1
            },
    )
}

/// The order of items by their keys.
pub open spec fn item_order<'a, Key, Cmp, I>(order: &'a Cmp) -> spec_fn(
    LentItem<'a, I>,
    LentItem<'a, I>,
) -> bool where Key: ?Sized, Cmp: Comparator<Key>, I: CursorLendingIterator + ItemToKey<Key> {
    |a: LentItem<'a, I>, b: LentItem<'a, I>| le(order, I::key_of(a), I::key_of(b))
}

/// The entries of all components, component after component.
pub open spec fn all_entries<'a, I: CursorLendingIterator>(parts: Seq<I>) -> Seq<LentItem<'a, I>> {
    flat(rows_of(parts))
}

/// No two entries of the components have keys that compare as equal.
pub open spec fn unique_keys<Key, Cmp, I>(order: &Cmp, parts: Seq<I>) -> bool where
    Key: ?Sized,
    Cmp: Comparator<Key>,
    I: CursorLendingIterator + ItemToKey<Key>,
 {
    distinct(all_entries(parts), item_order::<Key, Cmp, I>(order))
}

/// No two keys of the components compare as equal, whether they are keys of one component or
/// of two.
pub open spec fn keys_differ<Key, Cmp, I>(order: &Cmp, parts: Seq<I>) -> bool where
    Key: ?Sized,
    Cmp: Comparator<Key>,
    I: Seekable<Key, Cmp>,
 {
    forall|j: int, q: int, k: int, r: int|
        0 <= j < parts.len() && 0 <= q < parts[j].keys().len() && 0 <= k < parts.len() && 0 <= r
            < parts[k].keys().len() && (j != k || q != r) ==> !(le(
            order,
            #[trigger] parts[j].keys()[q],
            #[trigger] parts[k].keys()[r],
        ) && le(order, parts[k].keys()[r], parts[j].keys()[q]))
}

/// The entries of all components in the order of their keys: the entries of the merge.
pub open spec fn merged_entries<'a, Key, Cmp, I>(order: &'a Cmp, parts: Seq<I>) -> Seq<
    LentItem<'a, I>,
> where Key: ?Sized, Cmp: Comparator<Key>, I: CursorLendingIterator + ItemToKey<Key> {
    arrange(all_entries(parts), item_order::<Key, Cmp, I>(order))
}

/// The keys of the entries of the merge.
pub open spec fn merged_keys<'a, Key, Cmp, I>(order: &'a Cmp, parts: Seq<I>) -> Seq<&'a Key> where
    Key: ?Sized,
    Cmp: Comparator<Key>,
    I: CursorLendingIterator + ItemToKey<Key>,
 {
    Seq::new(
        merged_entries::<Key, Cmp, I>(order, parts).len(),
        |i: int| I::key_of(merged_entries::<Key, Cmp, I>(order, parts)[i]),
    )
}

/// The index among the entries of the merge of the entry that the component at `at` stands
/// on: the number of entries with keys that sort strictly before its key. Where `at` is
/// nothing, the number of all entries.
pub open spec fn merged_index<Key, Cmp, I>(order: &Cmp, parts: Seq<I>, at: Option<int>) -> int where
    Key: ?Sized,
    Cmp: Comparator<Key>,
    I: CursorLendingIterator + ItemToKey<Key>,
 {
    match at {
        None => all_entries(parts).len() as int,
        Some(c) => rank(
            all_entries(parts),
            item_order::<Key, Cmp, I>(order),
            parts[c].peek().unwrap(),
        ),
    }
}

} // verus!
