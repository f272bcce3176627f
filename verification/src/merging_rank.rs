use vstd::prelude::*;

use crate::comparator::{le, lt, total_order, total_order_chain, Comparator};
use crate::cursor::{index_after_next, index_after_prev, CursorLendingIterator};
use crate::lending_iterator_support::LentItem;
use crate::merging_laws::plain_parts;
use crate::merging_spec::{
    all_entries, entries_kept, greatest_before, item_order, key_under, keys_differ, lawful,
    least_from, merged_entries, merged_index, merged_keys, rows_of, settled, steps_down,
    steps_up, unique_keys,
};
use crate::ranking::{
    arrange, arrange_finds, arrange_has_the_same, arrange_is_in_order, arrange_keeps, flat_has,
    flat_is_from, flat_keeps_apart, offset, rank_at_the_ends, rank_is_bounded, rank_is_last,
    rank_is_next, total_preorder,
};
use crate::seekable::{in_order, seek_before_lands, seek_lands, ItemToKey, Seekable};

verus! {

/// A total order of the keys orders the items by their keys.
pub proof fn items_are_ordered<Key, Cmp, I>(order: &Cmp) where
    Key: ?Sized,
    Cmp: Comparator<Key>,
    I: CursorLendingIterator + ItemToKey<Key>,

    requires
        total_order(order),
    ensures
        total_preorder(item_order::<Key, Cmp, I>(order)),
{
    let by_key = item_order::<Key, Cmp, I>(order);
    assert forall|a: LentItem<'_, I>, b: LentItem<'_, I>| #[trigger] by_key(a, b) || by_key(b, a) by {
        total_order_chain(order, I::key_of(a), I::key_of(b), I::key_of(b));
    }
    assert forall|a: LentItem<'_, I>, b: LentItem<'_, I>, c: LentItem<'_, I>|
        #[trigger] by_key(a, b) && #[trigger] by_key(b, c) implies by_key(a, c) by {
        total_order_chain(order, I::key_of(a), I::key_of(b), I::key_of(c));
    }
}

/// Where an entry of a component of a lawful merge stands among all entries, and that its
/// key is the key of the component at its place.
pub proof fn entry_in_all<Key, Cmp, I>(order: &Cmp, parts: Seq<I>, j: int, q: int) -> (i: int) where
    Key: ?Sized,
    Cmp: Comparator<Key>,
    I: CursorLendingIterator + Seekable<Key, Cmp> + ItemToKey<Key>,

    requires
        lawful(order, parts),
        0 <= j < parts.len(),
        0 <= q < parts[j].entries().len(),
    ensures
        i == offset(rows_of(parts), j) + q,
        0 <= i < all_entries(parts).len(),
        all_entries(parts)[i] == parts[j].entries()[q],
        q < parts[j].keys().len(),
        I::key_of(all_entries(parts)[i]) == parts[j].keys()[q],
{
    flat_has(rows_of(parts), j, q);
    assert(parts[j].plain());
    assert(parts[j].keys()[q] == I::key_of(parts[j].entries()[q]));
    offset(rows_of(parts), j) + q
}

/// The component and the place in it of an entry among all entries of a lawful merge.
pub proof fn entry_of_all<Key, Cmp, I>(order: &Cmp, parts: Seq<I>, i: int) -> (slot: (int, int)) where
    Key: ?Sized,
    Cmp: Comparator<Key>,
    I: CursorLendingIterator + Seekable<Key, Cmp> + ItemToKey<Key>,

    requires
        lawful(order, parts),
        0 <= i < all_entries(parts).len(),
    ensures
        0 <= slot.0 < parts.len(),
        0 <= slot.1 < parts[slot.0].entries().len(),
        slot.1 < parts[slot.0].keys().len(),
        i == offset(rows_of(parts), slot.0) + slot.1,
        all_entries(parts)[i] == parts[slot.0].entries()[slot.1],
        I::key_of(all_entries(parts)[i]) == parts[slot.0].keys()[slot.1],
{
    let slot = flat_is_from(rows_of(parts), i);
    assert(parts[slot.0].plain());
    assert(parts[slot.0].keys()[slot.1] == I::key_of(parts[slot.0].entries()[slot.1]));
    slot
}

/// Where the entry that a component of a lawful merge stands on stands among all entries.
pub proof fn stands_in_all<Key, Cmp, I>(order: &Cmp, parts: Seq<I>, c: int) -> (i: int) where
    Key: ?Sized,
    Cmp: Comparator<Key>,
    I: CursorLendingIterator + Seekable<Key, Cmp> + ItemToKey<Key>,

    requires
        lawful(order, parts),
        0 <= c < parts.len(),
        parts[c].peek() is Some,
    ensures
        0 <= parts[c].index() < parts[c].entries().len(),
        i == offset(rows_of(parts), c) + parts[c].index(),
        0 <= i < all_entries(parts).len(),
        all_entries(parts)[i] == parts[c].peek().unwrap(),
        I::key_of(all_entries(parts)[i]) == key_under(&parts[c]),
{
    plain_parts(order, parts);
    assert(settled(order, &parts[c]));
    parts[c].plain_peek();
    entry_in_all(order, parts, c, parts[c].index())
}

/// The entries of a lawful merge have unique keys if no two keys of its components compare
/// as equal.
pub proof fn keys_are_unique<Key, Cmp, I>(order: &Cmp, parts: Seq<I>) where
    Key: ?Sized,
    Cmp: Comparator<Key>,
    I: CursorLendingIterator + Seekable<Key, Cmp> + ItemToKey<Key>,

    requires
        lawful(order, parts),
        keys_differ(order, parts),
    ensures
        unique_keys(order, parts),
{
    let by_key = item_order::<Key, Cmp, I>(order);
    let all = all_entries(parts);
    assert forall|i: int, j: int| 0 <= i < all.len() && 0 <= j < all.len() && i != j implies !(
    #[trigger] by_key(all[i], all[j]) && by_key(all[j], all[i])) by {
        let first = entry_of_all(order, parts, i);
        let second = entry_of_all(order, parts, j);
        assert(first.0 != second.0 || first.1 != second.1);
        assert(!(le(order, parts[first.0].keys()[first.1], parts[second.0].keys()[second.1])
            && le(order, parts[second.0].keys()[second.1], parts[first.0].keys()[first.1])));
    }
}

/// The merge of components with unique keys stands among its entries, on the entry that its
/// component stands on.
pub proof fn merged_peek<Key, Cmp, I>(order: &Cmp, parts: Seq<I>, at: Option<int>) where
    Key: ?Sized,
    Cmp: Comparator<Key>,
    I: CursorLendingIterator + Seekable<Key, Cmp> + ItemToKey<Key>,

    requires
        lawful(order, parts),
        unique_keys(order, parts),
        match at {
            Some(c) => 0 <= c < parts.len() && parts[c].peek() is Some,
            None => true,
        },
    ensures
        merged_entries(order, parts).len() == all_entries(parts).len(),
        merged_keys(order, parts).len() == all_entries(parts).len(),
        0 <= merged_index(order, parts, at) <= all_entries(parts).len(),
        match at {
            Some(c) => merged_index(order, parts, at) < all_entries(parts).len()
                && merged_entries(order, parts)[merged_index(order, parts, at)]
                == parts[c].peek().unwrap(),
            None => merged_index(order, parts, at) == all_entries(parts).len(),
        },
{
    let by_key = item_order::<Key, Cmp, I>(order);
    items_are_ordered::<Key, Cmp, I>(order);
    arrange_keeps(all_entries(parts), by_key);
    match at {
        Some(c) => {
            let i = stands_in_all(order, parts, c);
            arrange_finds(all_entries(parts), by_key, i);
        },
        None => {},
    }
}

/// The keys of the entries of a merge of components with unique keys are in order.
pub proof fn merged_in_order<Key, Cmp, I>(order: &Cmp, parts: Seq<I>) where
    Key: ?Sized,
    Cmp: Comparator<Key>,
    I: CursorLendingIterator + Seekable<Key, Cmp> + ItemToKey<Key>,

    requires
        lawful(order, parts),
        unique_keys(order, parts),
    ensures
        in_order(order, merged_keys(order, parts)),
{
    let by_key = item_order::<Key, Cmp, I>(order);
    let keys = merged_keys(order, parts);
    let entries = merged_entries(order, parts);
    items_are_ordered::<Key, Cmp, I>(order);
    arrange_keeps(all_entries(parts), by_key);
    arrange_is_in_order(all_entries(parts), by_key);
    assert forall|r: int, t: int| 0 <= r <= t < keys.len() implies le(
        order,
        #[trigger] keys[r],
        #[trigger] keys[t],
    ) by {
        assert(by_key(entries[r], entries[t]));
    }
}

/// A key of the merge is a key of a component.
pub proof fn merged_key_is_from<Key, Cmp, I>(order: &Cmp, parts: Seq<I>, r: int) -> (slot: (
    int,
    int,
)) where
    Key: ?Sized,
    Cmp: Comparator<Key>,
    I: CursorLendingIterator + Seekable<Key, Cmp> + ItemToKey<Key>,

    requires
        lawful(order, parts),
        0 <= r < merged_keys(order, parts).len(),
    ensures
        0 <= slot.0 < parts.len(),
        0 <= slot.1 < parts[slot.0].keys().len(),
        merged_keys(order, parts)[r] == parts[slot.0].keys()[slot.1],
{
    let by_key = item_order::<Key, Cmp, I>(order);
    let all = all_entries(parts);
    arrange_keeps(all, by_key);
    arrange_has_the_same(all, by_key);
    let k = choose|k: int| 0 <= k < all.len() && all[k] == arrange(all, by_key)[r];
    entry_of_all(order, parts, k)
}

/// A step forwards of a merge of components with unique keys is a step of one among its
/// entries: from each entry to the next, from the last to none, and from none to the first.
pub proof fn merged_up<Key, Cmp, I>(
    order: &Cmp,
    before: Seq<I>,
    from: Option<int>,
    after: Seq<I>,
    to: Option<int>,
) where
    Key: ?Sized,
    Cmp: Comparator<Key>,
    I: CursorLendingIterator + Seekable<Key, Cmp> + ItemToKey<Key>,

    requires
        lawful(order, before),
        lawful(order, after),
        unique_keys(order, before),
        entries_kept(before, after),
        match from {
            Some(c) => 0 <= c < before.len() && before[c].peek() is Some,
            None => true,
        },
        match to {
            Some(d) => 0 <= d < after.len() && after[d].peek() is Some,
            None => true,
        },
        match (from, to) {
            (Some(c), Some(d)) => c != d || before[c].index() != after[d].index(),
            _ => true,
        },
        steps_up(order, before, from, after, to),
    ensures
        all_entries(after) == all_entries(before),
        unique_keys(order, after),
        merged_index(order, after, to) == index_after_next(
            merged_index(order, before, from),
            all_entries(before).len() as int,
        ),
{
    let by_key = item_order::<Key, Cmp, I>(order);
    items_are_ordered::<Key, Cmp, I>(order);
    assert(rows_of(after) =~= rows_of(before));
    let all = all_entries(before);
    merged_peek(order, before, from);
    match (from, to) {
        (Some(c), Some(d)) => {
            let i = stands_in_all(order, before, c);
            let k = stands_in_all(order, after, d);
            flat_keeps_apart(rows_of(before), c, before[c].index(), d, after[d].index());
            let low = key_under(&before[c]);
            let high = key_under(&after[d]);
            assert(!(by_key(all[i], all[k]) && by_key(all[k], all[i])));
            assert(by_key(all[i], all[k]));
            total_order_chain(order, low, low, high);
            assert forall|j: int| 0 <= j < all.len() && j != i implies by_key(
                all[i],
                #[trigger] all[j],
            ) == by_key(all[k], all[j]) by {
                let slot = entry_of_all(order, after, j);
                let key = after[slot.0].keys()[slot.1];
                assert(!(by_key(all[i], all[j]) && by_key(all[j], all[i])));
                total_order_chain(order, low, high, key);
                total_order_chain(order, low, key, high);
                total_order_chain(order, key, high, low);
                total_order_chain(order, key, low, high);
            }
            rank_is_next(all, by_key, all[i], all[k], i);
        },
        (Some(c), None) => {
            let i = stands_in_all(order, before, c);
            let low = key_under(&before[c]);
            total_order_chain(order, low, low, low);
            assert forall|j: int| 0 <= j < all.len() && j != i implies !by_key(
                all[i],
                #[trigger] all[j],
            ) by {
                let slot = entry_of_all(order, after, j);
                let key = after[slot.0].keys()[slot.1];
                assert(le(order, key, low));
                assert(!(by_key(all[i], all[j]) && by_key(all[j], all[i])));
            }
            rank_is_last(all, by_key, all[i], i);
        },
        (None, Some(d)) => {
            let k = stands_in_all(order, after, d);
            let high = key_under(&after[d]);
            assert forall|j: int| 0 <= j < all.len() implies by_key(all[k], #[trigger] all[j]) by {
                let slot = entry_of_all(order, after, j);
                assert(le(order, high, after[slot.0].keys()[slot.1]));
            }
            rank_at_the_ends(all, by_key, all[k]);
        },
        (None, None) => {
            if all.len() > 0 {
                let slot = entry_of_all(order, after, 0);
                assert(after[slot.0].keys().len() == 0);
            }
        },
    }
}

/// A step backwards of a merge of components with unique keys is a step of one among its
/// entries: from each entry to the one before, from the first to none, and from none to the
/// last.
pub proof fn merged_down<Key, Cmp, I>(
    order: &Cmp,
    before: Seq<I>,
    from: Option<int>,
    after: Seq<I>,
    to: Option<int>,
) where
    Key: ?Sized,
    Cmp: Comparator<Key>,
    I: CursorLendingIterator + Seekable<Key, Cmp> + ItemToKey<Key>,

    requires
        lawful(order, before),
        lawful(order, after),
        unique_keys(order, before),
        entries_kept(before, after),
        match from {
            Some(c) => 0 <= c < before.len() && before[c].peek() is Some,
            None => true,
        },
        match to {
            Some(d) => 0 <= d < after.len() && after[d].peek() is Some,
            None => true,
        },
        match (from, to) {
            (Some(c), Some(d)) => c != d || before[c].index() != after[d].index(),
            _ => true,
        },
        steps_down(order, before, from, after, to),
    ensures
        all_entries(after) == all_entries(before),
        unique_keys(order, after),
        merged_index(order, after, to) == index_after_prev(
            merged_index(order, before, from),
            all_entries(before).len() as int,
        ),
{
    let by_key = item_order::<Key, Cmp, I>(order);
    items_are_ordered::<Key, Cmp, I>(order);
    assert(rows_of(after) =~= rows_of(before));
    let all = all_entries(before);
    merged_peek(order, before, from);
    match (from, to) {
        (Some(c), Some(d)) => {
            let i = stands_in_all(order, before, c);
            let k = stands_in_all(order, after, d);
            flat_keeps_apart(rows_of(before), c, before[c].index(), d, after[d].index());
            let high = key_under(&before[c]);
            let low = key_under(&after[d]);
            assert(!(by_key(all[i], all[k]) && by_key(all[k], all[i])));
            assert(by_key(all[k], all[i]));
            total_order_chain(order, low, low, high);
            assert forall|j: int| 0 <= j < all.len() && j != k implies by_key(
                all[k],
                #[trigger] all[j],
            ) == by_key(all[i], all[j]) by {
                let slot = entry_of_all(order, after, j);
                let key = after[slot.0].keys()[slot.1];
                assert(!(by_key(all[k], all[j]) && by_key(all[j], all[k])));
                total_order_chain(order, low, high, key);
                total_order_chain(order, low, key, high);
                total_order_chain(order, key, high, low);
                total_order_chain(order, key, low, high);
            }
            rank_is_next(all, by_key, all[k], all[i], k);
            rank_is_bounded(all, by_key, all[k]);
        },
        (Some(c), None) => {
            let i = stands_in_all(order, before, c);
            let high = key_under(&before[c]);
            assert forall|j: int| 0 <= j < all.len() implies by_key(all[i], #[trigger] all[j]) by {
                let slot = entry_of_all(order, after, j);
                assert(le(order, high, after[slot.0].keys()[slot.1]));
            }
            rank_at_the_ends(all, by_key, all[i]);
        },
        (None, Some(d)) => {
            let k = stands_in_all(order, after, d);
            let high = key_under(&after[d]);
            total_order_chain(order, high, high, high);
            assert forall|j: int| 0 <= j < all.len() && j != k implies !by_key(
                all[k],
                #[trigger] all[j],
            ) by {
                let slot = entry_of_all(order, after, j);
                let key = after[slot.0].keys()[slot.1];
                assert(le(order, key, high));
                assert(!(by_key(all[k], all[j]) && by_key(all[j], all[k])));
            }
            rank_is_last(all, by_key, all[k], k);
        },
        (None, None) => {
            if all.len() > 0 {
                let slot = entry_of_all(order, after, 0);
                assert(after[slot.0].keys().len() == 0);
            }
        },
    }
}

/// Where a merge of components with unique keys stands on the least key of its components
/// from `bound` on, it stands among its own keys where a seek to `bound` lands.
pub proof fn merged_seek<Key, Cmp, I>(order: &Cmp, parts: Seq<I>, bound: &Key, at: Option<int>) where
    Key: ?Sized,
    Cmp: Comparator<Key>,
    I: CursorLendingIterator + Seekable<Key, Cmp> + ItemToKey<Key>,

    requires
        lawful(order, parts),
        unique_keys(order, parts),
        match at {
            Some(c) => 0 <= c < parts.len() && parts[c].peek() is Some,
            None => true,
        },
        least_from(order, parts, bound, at),
    ensures
        seek_lands(order, merged_keys(order, parts), bound, merged_index(order, parts, at)),
{
    let keys = merged_keys(order, parts);
    let place = merged_index(order, parts, at);
    merged_peek(order, parts, at);
    match at {
        Some(c) => {
            let i = stands_in_all(order, parts, c);
            assert(keys[place] == key_under(&parts[c]));
            assert forall|r: int| 0 <= r < keys.len() && le(order, bound, #[trigger] keys[r]) implies le(
                order,
                keys[place],
                keys[r],
            ) by {
                let slot = merged_key_is_from(order, parts, r);
                assert(keys[r] == parts[slot.0].keys()[slot.1]);
            }
        },
        None => {
            assert forall|r: int| 0 <= r < keys.len() implies lt(order, #[trigger] keys[r], bound) by {
                let slot = merged_key_is_from(order, parts, r);
                assert(keys[r] == parts[slot.0].keys()[slot.1]);
            }
        },
    }
}

/// Where a merge of components with unique keys stands on the greatest key of its
/// components before `bound`, it stands among its own keys where a seek before `bound`
/// lands.
pub proof fn merged_seek_before<Key, Cmp, I>(
    order: &Cmp,
    parts: Seq<I>,
    bound: &Key,
    at: Option<int>,
) where
    Key: ?Sized,
    Cmp: Comparator<Key>,
    I: CursorLendingIterator + Seekable<Key, Cmp> + ItemToKey<Key>,

    requires
        lawful(order, parts),
        unique_keys(order, parts),
        match at {
            Some(c) => 0 <= c < parts.len() && parts[c].peek() is Some,
            None => true,
        },
        greatest_before(order, parts, bound, at),
    ensures
        seek_before_lands(
            order,
            merged_keys(order, parts),
            bound,
            merged_index(order, parts, at),
        ),
{
    let keys = merged_keys(order, parts);
    let place = merged_index(order, parts, at);
    merged_peek(order, parts, at);
    match at {
        Some(c) => {
            let i = stands_in_all(order, parts, c);
            assert(keys[place] == key_under(&parts[c]));
            assert forall|r: int| 0 <= r < keys.len() && lt(order, #[trigger] keys[r], bound) implies le(
                order,
                keys[r],
                keys[place],
            ) by {
                let slot = merged_key_is_from(order, parts, r);
                assert(keys[r] == parts[slot.0].keys()[slot.1]);
            }
        },
        None => {
            assert forall|r: int| 0 <= r < keys.len() implies le(order, bound, #[trigger] keys[r]) by {
                let slot = merged_key_is_from(order, parts, r);
                assert(keys[r] == parts[slot.0].keys()[slot.1]);
            }
        },
    }
}

} // verus!
