use vstd::prelude::*;

use crate::comparator::{equiv, le, lt, total_order, total_order_chain, Comparator};
use crate::cursor::{
    index_after_next, index_after_prev, moved_next, moved_prev, CursorLendingIterator,
};
use crate::merging_spec::{
    ahead_of, aligned, behind_of, entries_kept, fit, greatest_before, head, key_under, keys_kept,
    kindred, largest_among, largest_at, lawful, least_from, no_keys, nothing_above, nothing_below,
    nothing_between, passed, poised_backwards, poised_forwards, settled, smallest_among,
    smallest_at, sought_past,
};
use crate::seekable::{
    seek_before_lands, seek_lands, sought, sought_before, sought_first, sought_last, was_reset,
    ItemToKey, Seekable,
};

verus! {

/// A scan for the smallest key that has covered the components before `next`, and holds the
/// component at `found`, covers one more once it has looked at the component at `next`: it
/// then holds that one if it stands on a key that sorts strictly before the key held, or if
/// nothing was held, and else what it held.
pub proof fn smallest_grows<Key, Cmp, I>(order: &Cmp, parts: Seq<I>, next: int, found: Option<int>) where
    Key: ?Sized,
    Cmp: Comparator<Key>,
    I: CursorLendingIterator + ItemToKey<Key>,

    requires
        total_order(order),
        0 <= next < parts.len(),
        smallest_among(order, parts, 0, next, found),
    ensures
        parts[next].peek() is None ==> smallest_among(order, parts, 0, next + 1, found),
        parts[next].peek() is Some && found is None ==> smallest_among(
            order,
            parts,
            0,
            next + 1,
            Some(next),
        ),
        parts[next].peek() is Some && found is Some && lt(
            order,
            head(&parts[next]),
            head(&parts[found.unwrap()]),
        ) ==> smallest_among(order, parts, 0, next + 1, Some(next)),
        parts[next].peek() is Some && found is Some && !lt(
            order,
            head(&parts[next]),
            head(&parts[found.unwrap()]),
        ) ==> smallest_among(order, parts, 0, next + 1, found),
{
    let new_key = head(&parts[next]);
    total_order_chain(order, new_key, new_key, new_key);
    if parts[next].peek() is Some && found is Some {
        let old_key = head(&parts[found.unwrap()]);
        total_order_chain(order, new_key, old_key, old_key);
        assert forall|j: int|
            0 <= j < next && (#[trigger] parts[j]).peek() is Some && lt(
                order,
                new_key,
                old_key,
            ) implies lt(order, new_key, head(&parts[j])) by {
            total_order_chain(order, new_key, old_key, head(&parts[j]));
        }
    }
}

/// A scan for the largest key that has covered the components after `next`, and holds the
/// component at `found`, covers one more once it has looked at the component at `next`: it
/// then holds that one if it stands on a key that sorts strictly after the key held, or if
/// nothing was held, and else what it held.
pub proof fn largest_grows<Key, Cmp, I>(order: &Cmp, parts: Seq<I>, next: int, found: Option<int>) where
    Key: ?Sized,
    Cmp: Comparator<Key>,
    I: CursorLendingIterator + ItemToKey<Key>,

    requires
        total_order(order),
        0 <= next < parts.len(),
        largest_among(order, parts, next + 1, parts.len() as int, found),
    ensures
        parts[next].peek() is None ==> largest_among(
            order,
            parts,
            next,
            parts.len() as int,
            found,
        ),
        parts[next].peek() is Some && found is None ==> largest_among(
            order,
            parts,
            next,
            parts.len() as int,
            Some(next),
        ),
        parts[next].peek() is Some && found is Some && lt(
            order,
            head(&parts[found.unwrap()]),
            head(&parts[next]),
        ) ==> largest_among(order, parts, next, parts.len() as int, Some(next)),
        parts[next].peek() is Some && found is Some && !lt(
            order,
            head(&parts[found.unwrap()]),
            head(&parts[next]),
        ) ==> largest_among(order, parts, next, parts.len() as int, found),
{
    let new_key = head(&parts[next]);
    total_order_chain(order, new_key, new_key, new_key);
    if parts[next].peek() is Some && found is Some {
        let old_key = head(&parts[found.unwrap()]);
        total_order_chain(order, old_key, new_key, new_key);
        assert forall|j: int|
            next < j < parts.len() && (#[trigger] parts[j]).peek() is Some && lt(
                order,
                old_key,
                new_key,
            ) implies lt(order, head(&parts[j]), new_key) by {
            total_order_chain(order, head(&parts[j]), old_key, new_key);
        }
    }
}

/// A component that is fit for the merge is settled in its order.
pub proof fn plain_part<Key, Cmp, I>(order: &Cmp, it: &I) where
    Key: ?Sized,
    Cmp: Comparator<Key>,
    I: CursorLendingIterator + Seekable<Key, Cmp> + ItemToKey<Key>,

    requires
        total_order(order),
        kindred::<Key, Cmp, I>(),
        fit(order, it),
    ensures
        settled(order, it),
{
    it.plain_peek();
    it.sorted_keys();
    let keys = it.keys();
    assert forall|i: int, j: int| 0 <= i <= j < keys.len() implies le(
        order,
        #[trigger] keys[i],
        #[trigger] keys[j],
    ) by {
        assert(le(it.comparator(), keys[i], keys[j]));
        assert(it.comparator().compare(keys[i], keys[j]) == order.compare(keys[i], keys[j]));
    }
    if it.place() < it.keys().len() {
        assert(it.keys()[it.place()] == I::key_of(it.entries()[it.place()]));
    }
}

/// A step forwards of a plain component, in the words of its keys.
pub proof fn next_in_keys<Key, Cmp, I>(order: &Cmp, before: &I, after: &I) where
    Key: ?Sized,
    Cmp: Comparator<Key>,
    I: CursorLendingIterator + Seekable<Key, Cmp> + ItemToKey<Key>,

    requires
        total_order(order),
        kindred::<Key, Cmp, I>(),
        fit(order, before),
        moved_next(before, after),
    ensures
        fit(order, after),
        after.keys() == before.keys(),
        after.entries() == before.entries(),
        after.place() == index_after_next(before.place(), before.keys().len() as int),
{
    assert(after.plain());
    assert forall|q: int| 0 <= q < after.keys().len() implies after.keys()[q] == before.keys()[q] by {
        assert(after.keys()[q] == I::key_of(after.entries()[q]));
        assert(before.keys()[q] == I::key_of(before.entries()[q]));
    }
    assert(after.keys() =~= before.keys());
}

/// A step backwards of a plain component, in the words of its keys.
pub proof fn prev_in_keys<Key, Cmp, I>(order: &Cmp, before: &I, after: &I) where
    Key: ?Sized,
    Cmp: Comparator<Key>,
    I: CursorLendingIterator + Seekable<Key, Cmp> + ItemToKey<Key>,

    requires
        total_order(order),
        kindred::<Key, Cmp, I>(),
        fit(order, before),
        moved_prev(before, after),
    ensures
        fit(order, after),
        after.keys() == before.keys(),
        after.entries() == before.entries(),
        after.place() == index_after_prev(before.place(), before.keys().len() as int),
{
    assert(after.plain());
    assert forall|q: int| 0 <= q < after.keys().len() implies after.keys()[q] == before.keys()[q] by {
        assert(after.keys()[q] == I::key_of(after.entries()[q]));
        assert(before.keys()[q] == I::key_of(before.entries()[q]));
    }
    assert(after.keys() =~= before.keys());
}

/// A seek of a plain component, in the order of the merge.
pub proof fn seek_in_keys<Key, Cmp, I>(order: &Cmp, before: &I, after: &I, bound: &Key) where
    Key: ?Sized,
    Cmp: Comparator<Key>,
    I: CursorLendingIterator + Seekable<Key, Cmp> + ItemToKey<Key>,

    requires
        total_order(order),
        kindred::<Key, Cmp, I>(),
        fit(order, before),
        sought(before, after, bound),
    ensures
        fit(order, after),
        after.keys() == before.keys(),
        after.entries() == before.entries(),
        seek_lands(order, before.keys(), bound, after.place()),
{
    assert(before.sorted());
    assert(after.sorted());
    let keys = before.keys();
    let c = before.comparator();
    let place = after.place();
    assert(seek_lands(c, keys, bound, place));
    assert forall|i: int| 0 <= i < keys.len() implies c.compare(#[trigger] keys[i], bound)
        == order.compare(keys[i], bound) && c.compare(bound, keys[i]) == order.compare(
        bound,
        keys[i],
    ) by {}
    if place < keys.len() {
        assert forall|i: int| 0 <= i < keys.len() implies c.compare(keys[place], #[trigger] keys[i])
            == order.compare(keys[place], keys[i]) by {}
    }
}

/// A seek before a bound of a plain component, in the order of the merge.
pub proof fn seek_before_in_keys<Key, Cmp, I>(order: &Cmp, before: &I, after: &I, bound: &Key) where
    Key: ?Sized,
    Cmp: Comparator<Key>,
    I: CursorLendingIterator + Seekable<Key, Cmp> + ItemToKey<Key>,

    requires
        total_order(order),
        kindred::<Key, Cmp, I>(),
        fit(order, before),
        sought_before(before, after, bound),
    ensures
        fit(order, after),
        after.keys() == before.keys(),
        after.entries() == before.entries(),
        seek_before_lands(order, before.keys(), bound, after.place()),
{
    assert(before.sorted());
    assert(after.sorted());
    let keys = before.keys();
    let c = before.comparator();
    let place = after.place();
    assert(seek_before_lands(c, keys, bound, place));
    assert forall|i: int| 0 <= i < keys.len() implies c.compare(#[trigger] keys[i], bound)
        == order.compare(keys[i], bound) && c.compare(bound, keys[i]) == order.compare(
        bound,
        keys[i],
    ) by {}
    if place < keys.len() {
        assert forall|i: int| 0 <= i < keys.len() implies c.compare(#[trigger] keys[i], keys[place])
            == order.compare(keys[i], keys[place]) by {}
    }
}

/// The components of a lawful merge are settled.
pub proof fn plain_parts<Key, Cmp, I>(order: &Cmp, parts: Seq<I>) where
    Key: ?Sized,
    Cmp: Comparator<Key>,
    I: CursorLendingIterator + Seekable<Key, Cmp> + ItemToKey<Key>,

    requires
        lawful(order, parts),
    ensures
        forall|j: int| 0 <= j < parts.len() ==> settled(order, &#[trigger] parts[j]),
{
    assert forall|j: int| 0 <= j < parts.len() implies settled(order, &#[trigger] parts[j]) by {
        plain_part(order, &parts[j]);
    }
}

/// Where the merge stands on the component at `c` and is poised forwards, one step forwards
/// of that component and a choice of the smallest leave it aligned, on a key that is not
/// smaller, and with no key of a component between the two; and where it then stands on no
/// entry, no key of a component is greater than the key it stood on.
pub proof fn forward_step<Key, Cmp, I>(
    order: &Cmp,
    before: Seq<I>,
    after: Seq<I>,
    c: int,
    found: Option<int>,
) where
    Key: ?Sized,
    Cmp: Comparator<Key>,
    I: CursorLendingIterator + Seekable<Key, Cmp> + ItemToKey<Key>,

    requires
        lawful(order, before),
        poised_forwards(order, before, c),
        after.len() == before.len(),
        forall|j: int| 0 <= j < before.len() && j != c ==> #[trigger] after[j] == before[j],
        moved_next(&before[c], &after[c]),
        smallest_at(order, after, found),
    ensures
        lawful(order, after),
        keys_kept(before, after),
        entries_kept(before, after),
        aligned(order, after, found, true),
        match found {
            Some(d) => le(order, key_under(&before[c]), key_under(&after[d])) && nothing_between(
                order,
                after,
                key_under(&before[c]),
                key_under(&after[d]),
            ),
            None => nothing_above(order, after, key_under(&before[c])),
        },
{
    let kc = key_under(&before[c]);
    plain_parts(order, before);
    next_in_keys(order, &before[c], &after[c]);
    plain_part(order, &after[c]);
    assert forall|j: int| 0 <= j < after.len() implies settled(order, &#[trigger] after[j]) by {
        if j != c {
            assert(after[j] == before[j]);
            assert(settled(order, &before[j]));
        }
    }
    assert(keys_kept(before, after) && entries_kept(before, after)) by {
        assert forall|j: int| 0 <= j < before.len() implies (#[trigger] after[j]).keys()
            == before[j].keys() && after[j].entries() == before[j].entries() by {
            if j != c {
                assert(after[j] == before[j]);
            }
        }
    }
    let pc = before[c].place();
    assert(after[c].place() == pc + 1);
    // No component stands on a key that sorts strictly before the key left.
    assert forall|j: int|
        0 <= j < after.len() && (#[trigger] after[j]).place() < after[j].keys().len() implies le(
        order,
        kc,
        after[j].keys()[after[j].place()],
    ) by {
        if j != c {
            assert(after[j] == before[j]);
            assert(before[j].place() < before[j].keys().len());
        } else {
            assert(le(order, before[c].keys()[pc], before[c].keys()[pc + 1]));
        }
    }
    // Each component is ahead of the key left.
    assert forall|j: int| 0 <= j < after.len() implies ahead_of(order, &#[trigger] after[j], kc) by {
        if j != c {
            assert(after[j] == before[j]);
            assert(ahead_of(order, &before[j], kc));
        } else {
            let keys = after[c].keys();
            assert forall|q: int| 0 <= q < after[c].place() && q < keys.len() implies le(
                order,
                #[trigger] keys[q],
                kc,
            ) by {
                assert(le(order, before[c].keys()[q], before[c].keys()[pc]));
            }
        }
    }
    match found {
        Some(d) => {
            assert(settled(order, &after[d]));
            let kd = key_under(&after[d]);
            assert(le(order, kc, kd));
            assert forall|j: int|
                0 <= j < after.len() && 0 <= (#[trigger] after[j]).place()
                    < after[j].keys().len() implies le(
                order,
                kd,
                after[j].keys()[after[j].place()],
            ) by {
                assert(settled(order, &after[j]));
                assert(after[j].peek() is Some);
            }
            assert forall|j: int| 0 <= j < after.len() implies ahead_of(
                order,
                &#[trigger] after[j],
                kd,
            ) by {
                assert(ahead_of(order, &after[j], kc));
                let keys = after[j].keys();
                let place = after[j].place();
                assert forall|q: int| 0 <= q < place && q < keys.len() implies le(
                    order,
                    #[trigger] keys[q],
                    kd,
                ) || (place < keys.len() && le(order, keys[place], keys[q])) by {
                    total_order_chain(order, keys[q], kc, kd);
                }
            }
            assert(poised_forwards(order, after, d));
            assert forall|j: int, q: int|
                0 <= j < after.len() && 0 <= q < after[j].keys().len() implies !(lt(
                order,
                kc,
                #[trigger] after[j].keys()[q],
            ) && lt(order, after[j].keys()[q], kd)) by {
                let keys = after[j].keys();
                let place = after[j].place();
                assert(settled(order, &after[j]));
                assert(ahead_of(order, &after[j], kc));
                total_order_chain(order, kc, keys[q], kd);
                total_order_chain(order, keys[q], kd, kd);
                if place < keys.len() {
                    assert(le(order, kd, keys[place]));
                    total_order_chain(order, kd, keys[place], keys[q]);
                    if q >= place {
                        assert(le(order, keys[place], keys[q]));
                    }
                }
            }
        },
        None => {
            assert forall|j: int|
                0 <= j < after.len() implies (#[trigger] after[j]).place()
                == after[j].keys().len() by {
                assert(settled(order, &after[j]));
                assert(after[j].peek() is None);
            }
            assert forall|j: int, q: int|
                0 <= j < after.len() && 0 <= q < after[j].keys().len() implies le(
                order,
                #[trigger] after[j].keys()[q],
                kc,
            ) by {
                assert(ahead_of(order, &after[j], kc));
                assert(after[j].place() == after[j].keys().len());
            }
        },
    }
}

/// Where the merge stands on the component at `c` and is poised backwards, one step backwards
/// of that component and a choice of the largest leave it aligned, on a key that is not
/// greater, and with no key of a component between the two; and where it then stands on no
/// entry, no key of a component is smaller than the key it stood on.
pub proof fn backward_step<Key, Cmp, I>(
    order: &Cmp,
    before: Seq<I>,
    after: Seq<I>,
    c: int,
    found: Option<int>,
) where
    Key: ?Sized,
    Cmp: Comparator<Key>,
    I: CursorLendingIterator + Seekable<Key, Cmp> + ItemToKey<Key>,

    requires
        lawful(order, before),
        poised_backwards(order, before, c),
        after.len() == before.len(),
        forall|j: int| 0 <= j < before.len() && j != c ==> #[trigger] after[j] == before[j],
        moved_prev(&before[c], &after[c]),
        largest_at(order, after, found),
    ensures
        lawful(order, after),
        keys_kept(before, after),
        entries_kept(before, after),
        aligned(order, after, found, false),
        match found {
            Some(d) => le(order, key_under(&after[d]), key_under(&before[c])) && nothing_between(
                order,
                after,
                key_under(&after[d]),
                key_under(&before[c]),
            ),
            None => nothing_below(order, after, key_under(&before[c])),
        },
{
    let kc = key_under(&before[c]);
    plain_parts(order, before);
    prev_in_keys(order, &before[c], &after[c]);
    plain_part(order, &after[c]);
    assert forall|j: int| 0 <= j < after.len() implies settled(order, &#[trigger] after[j]) by {
        if j != c {
            assert(after[j] == before[j]);
            assert(settled(order, &before[j]));
        }
    }
    assert(keys_kept(before, after) && entries_kept(before, after)) by {
        assert forall|j: int| 0 <= j < before.len() implies (#[trigger] after[j]).keys()
            == before[j].keys() && after[j].entries() == before[j].entries() by {
            if j != c {
                assert(after[j] == before[j]);
            }
        }
    }
    let pc = before[c].place();
    // No component stands on a key that sorts strictly after the key left.
    assert forall|j: int|
        0 <= j < after.len() && (#[trigger] after[j]).place() < after[j].keys().len() implies le(
        order,
        after[j].keys()[after[j].place()],
        kc,
    ) by {
        if j != c {
            assert(after[j] == before[j]);
            assert(before[j].place() < before[j].keys().len());
        } else {
            assert(le(order, before[c].keys()[pc - 1], before[c].keys()[pc]));
        }
    }
    // Each component is behind the key left.
    assert forall|j: int| 0 <= j < after.len() implies behind_of(order, &#[trigger] after[j], kc) by {
        if j != c {
            assert(after[j] == before[j]);
            assert(behind_of(order, &before[j], kc));
        } else {
            let keys = after[c].keys();
            let place = after[c].place();
            assert forall|q: int|
                0 <= q < keys.len() && (place < q || place >= keys.len()) implies le(
                order,
                kc,
                #[trigger] keys[q],
            ) by {
                assert(le(order, before[c].keys()[pc], before[c].keys()[q]));
            }
        }
    }
    match found {
        Some(d) => {
            assert(settled(order, &after[d]));
            let kd = key_under(&after[d]);
            assert(le(order, kd, kc));
            assert forall|j: int|
                0 <= j < after.len() && 0 <= (#[trigger] after[j]).place()
                    < after[j].keys().len() implies le(
                order,
                after[j].keys()[after[j].place()],
                kd,
            ) by {
                assert(settled(order, &after[j]));
                assert(after[j].peek() is Some);
            }
            assert forall|j: int| 0 <= j < after.len() implies behind_of(
                order,
                &#[trigger] after[j],
                kd,
            ) by {
                assert(behind_of(order, &after[j], kc));
                let keys = after[j].keys();
                let place = after[j].place();
                assert forall|q: int|
                    0 <= q < keys.len() && (place < q || place >= keys.len()) implies le(
                    order,
                    kd,
                    #[trigger] keys[q],
                ) || (place < keys.len() && le(order, keys[q], keys[place])) by {
                    total_order_chain(order, kd, kc, keys[q]);
                }
            }
            assert(poised_backwards(order, after, d));
            assert forall|j: int, q: int|
                0 <= j < after.len() && 0 <= q < after[j].keys().len() implies !(lt(
                order,
                kd,
                #[trigger] after[j].keys()[q],
            ) && lt(order, after[j].keys()[q], kc)) by {
                let keys = after[j].keys();
                let place = after[j].place();
                assert(settled(order, &after[j]));
                assert(behind_of(order, &after[j], kc));
                total_order_chain(order, kd, keys[q], kc);
                total_order_chain(order, keys[q], kc, kc);
                if place < keys.len() {
                    assert(le(order, keys[place], kd));
                    total_order_chain(order, keys[q], keys[place], kd);
                    if q <= place {
                        assert(le(order, keys[q], keys[place]));
                    }
                }
            }
        },
        None => {
            assert forall|j: int|
                0 <= j < after.len() implies (#[trigger] after[j]).place()
                == after[j].keys().len() by {
                assert(settled(order, &after[j]));
                assert(after[j].peek() is None);
            }
            assert forall|j: int, q: int|
                0 <= j < after.len() && 0 <= q < after[j].keys().len() implies le(
                order,
                kc,
                #[trigger] after[j].keys()[q],
            ) by {
                assert(behind_of(order, &after[j], kc));
                assert(after[j].place() == after[j].keys().len());
            }
        },
    }
}

/// A plain component that was moved strictly past `bound` is settled, has its keys, is ahead
/// of `bound`, and stands on no key that sorts strictly before `bound`.
pub proof fn past_in_keys<Key, Cmp, I>(order: &Cmp, before: &I, after: &I, bound: &Key) where
    Key: ?Sized,
    Cmp: Comparator<Key>,
    I: CursorLendingIterator + Seekable<Key, Cmp> + ItemToKey<Key>,

    requires
        total_order(order),
        kindred::<Key, Cmp, I>(),
        fit(order, before),
        sought_past(order, before, after, bound),
    ensures
        settled(order, after),
        after.keys() == before.keys(),
        after.entries() == before.entries(),
        ahead_of(order, after, bound),
        after.place() < after.keys().len() ==> le(order, bound, key_under(after)),
{
    let (mid, skip) = choose|mid: I, skip: bool|
        {
            &&& #[trigger] sought(before, &mid, bound)
            &&& mid.peek() is None ==> !skip
            &&& mid.peek() is Some && order.obeys() ==> skip == equiv(order, bound, head(&mid))
            &&& #[trigger] passed(&mid, after, skip)
        };
    seek_in_keys(order, before, &mid, bound);
    plain_part(order, &mid);
    let keys = mid.keys();
    let m = mid.place();
    if skip {
        next_in_keys(order, &mid, after);
        plain_part(order, after);
        assert(after.place() == m + 1);
        total_order_chain(order, bound, keys[m], keys[m]);
        assert forall|q: int| 0 <= q < after.place() && q < keys.len() implies le(
            order,
            #[trigger] keys[q],
            bound,
        ) by {
            assert(le(order, keys[q], keys[m]));
            total_order_chain(order, keys[q], keys[m], bound);
        }
        if m + 1 < keys.len() {
            assert(le(order, keys[m], keys[m + 1]));
            total_order_chain(order, bound, keys[m], keys[m + 1]);
        }
    } else {
        assert(*after == mid);
        assert forall|q: int| 0 <= q < m && q < keys.len() implies le(
            order,
            #[trigger] keys[q],
            bound,
        ) || (m < keys.len() && le(order, keys[m], keys[q])) by {
            total_order_chain(order, keys[q], bound, bound);
        }
    }
}

/// A plain component that was sought before `bound` is settled, has its keys, is behind
/// `bound`, and stands on no key that sorts strictly after `bound`.
pub proof fn before_in_keys<Key, Cmp, I>(order: &Cmp, before: &I, after: &I, bound: &Key) where
    Key: ?Sized,
    Cmp: Comparator<Key>,
    I: CursorLendingIterator + Seekable<Key, Cmp> + ItemToKey<Key>,

    requires
        total_order(order),
        kindred::<Key, Cmp, I>(),
        fit(order, before),
        sought_before(before, after, bound),
    ensures
        settled(order, after),
        after.keys() == before.keys(),
        after.entries() == before.entries(),
        behind_of(order, after, bound),
        after.place() < after.keys().len() ==> le(order, key_under(after), bound),
{
    seek_before_in_keys(order, before, after, bound);
    plain_part(order, after);
    let keys = after.keys();
    let place = after.place();
    assert forall|q: int| 0 <= q < keys.len() && (place < q || place >= keys.len()) implies le(
        order,
        bound,
        #[trigger] keys[q],
    ) || (place < keys.len() && le(order, keys[q], keys[place])) by {
        total_order_chain(order, keys[q], bound, bound);
    }
    if place < keys.len() {
        total_order_chain(order, keys[place], bound, bound);
    }
}

/// A change of direction to forwards leaves a lawful merge poised forwards on the component
/// that it stands on, whatever the places of the others were.
pub proof fn turn_forwards<Key, Cmp, I>(order: &Cmp, before: Seq<I>, after: Seq<I>, c: int) where
    Key: ?Sized,
    Cmp: Comparator<Key>,
    I: CursorLendingIterator + Seekable<Key, Cmp> + ItemToKey<Key>,

    requires
        lawful(order, before),
        0 <= c < before.len(),
        before[c].peek() is Some,
        after.len() == before.len(),
        after[c] == before[c],
        forall|j: int|
            0 <= j < before.len() && j != c ==> sought_past(
                order,
                &before[j],
                &#[trigger] after[j],
                head(&before[c]),
            ),
    ensures
        lawful(order, after),
        keys_kept(before, after),
        entries_kept(before, after),
        poised_forwards(order, after, c),
{
    plain_parts(order, before);
    assert(settled(order, &before[c]));
    let kc = key_under(&before[c]);
    assert(kc == head(&before[c]));
    assert forall|j: int| 0 <= j < after.len() implies settled(order, &#[trigger] after[j])
        && after[j].keys() == before[j].keys() && after[j].entries() == before[j].entries()
        && ahead_of(order, &after[j], kc) && (
    after[j].place() < after[j].keys().len() ==> le(order, kc, key_under(&after[j]))) by {
        if j != c {
            past_in_keys(order, &before[j], &after[j], kc);
        } else {
            let keys = before[c].keys();
            let pc = before[c].place();
            total_order_chain(order, kc, kc, kc);
            assert forall|q: int| 0 <= q < pc && q < keys.len() implies le(
                order,
                #[trigger] keys[q],
                kc,
            ) by {
                assert(le(order, keys[q], keys[pc]));
            }
        }
    }
}

/// A change of direction to backwards leaves a lawful merge poised backwards on the
/// component that it stands on, whatever the places of the others were.
pub proof fn turn_backwards<Key, Cmp, I>(order: &Cmp, before: Seq<I>, after: Seq<I>, c: int) where
    Key: ?Sized,
    Cmp: Comparator<Key>,
    I: CursorLendingIterator + Seekable<Key, Cmp> + ItemToKey<Key>,

    requires
        lawful(order, before),
        0 <= c < before.len(),
        before[c].peek() is Some,
        after.len() == before.len(),
        after[c] == before[c],
        forall|j: int|
            0 <= j < before.len() && j != c ==> sought_before(
                &before[j],
                &#[trigger] after[j],
                head(&before[c]),
            ),
    ensures
        lawful(order, after),
        keys_kept(before, after),
        entries_kept(before, after),
        poised_backwards(order, after, c),
{
    plain_parts(order, before);
    assert(settled(order, &before[c]));
    let kc = key_under(&before[c]);
    assert(kc == head(&before[c]));
    assert forall|j: int| 0 <= j < after.len() implies settled(order, &#[trigger] after[j])
        && after[j].keys() == before[j].keys() && after[j].entries() == before[j].entries()
        && behind_of(order, &after[j], kc) && (
    after[j].place() < after[j].keys().len() ==> le(order, key_under(&after[j]), kc)) by {
        if j != c {
            before_in_keys(order, &before[j], &after[j], kc);
        } else {
            let keys = before[c].keys();
            let pc = before[c].place();
            total_order_chain(order, kc, kc, kc);
            assert forall|q: int| 0 <= q < keys.len() && pc < q implies le(
                order,
                kc,
                #[trigger] keys[q],
            ) by {
                assert(le(order, keys[pc], keys[q]));
            }
        }
    }
}

/// A plain component that was moved by one of the methods of a seekable iterator is plain,
/// and has the keys that it had.
pub proof fn kept_in_keys<Key, Cmp, I>(order: &Cmp, before: &I, after: &I) where
    Key: ?Sized,
    Cmp: Comparator<Key>,
    I: CursorLendingIterator + Seekable<Key, Cmp> + ItemToKey<Key>,

    requires
        total_order(order),
        kindred::<Key, Cmp, I>(),
        fit(order, before),
        was_reset(before, after) || sought_first(before, after) || sought_last(before, after),
    ensures
        settled(order, after),
        after.keys() == before.keys(),
        after.entries() == before.entries(),
{
    assert(before.sorted());
    assert(after.sorted());
    plain_part(order, after);
}

/// Where every component of a lawful merge stands on its first key, the first component on
/// the smallest of these keys stands on the smallest key of all, and the merge is aligned
/// forwards on it. Where no component stands on a key, there are no keys.
pub proof fn from_the_front<Key, Cmp, I>(order: &Cmp, parts: Seq<I>, found: Option<int>) where
    Key: ?Sized,
    Cmp: Comparator<Key>,
    I: CursorLendingIterator + Seekable<Key, Cmp> + ItemToKey<Key>,

    requires
        lawful(order, parts),
        forall|j: int| 0 <= j < parts.len() ==> (#[trigger] parts[j]).place() == 0,
        smallest_at(order, parts, found),
    ensures
        aligned(order, parts, found, true),
        match found {
            Some(d) => nothing_below(order, parts, key_under(&parts[d])),
            None => no_keys(parts),
        },
{
    plain_parts(order, parts);
    match found {
        Some(d) => {
            assert(settled(order, &parts[d]));
            let kd = key_under(&parts[d]);
            assert forall|j: int|
                0 <= j < parts.len() && 0 <= (#[trigger] parts[j]).place()
                    < parts[j].keys().len() implies le(order, kd, key_under(&parts[j])) by {
                assert(settled(order, &parts[j]));
                assert(parts[j].peek() is Some);
            }
            assert forall|j: int| 0 <= j < parts.len() implies ahead_of(
                order,
                &#[trigger] parts[j],
                kd,
            ) by {
                assert(parts[j].place() == 0);
            }
            assert forall|j: int, q: int|
                0 <= j < parts.len() && 0 <= q < parts[j].keys().len() implies le(
                order,
                kd,
                #[trigger] parts[j].keys()[q],
            ) by {
                let keys = parts[j].keys();
                assert(settled(order, &parts[j]));
                assert(parts[j].place() == 0);
                assert(le(order, kd, keys[0]));
                assert(le(order, keys[0], keys[q]));
                total_order_chain(order, kd, keys[0], keys[q]);
            }
        },
        None => {
            assert forall|j: int| 0 <= j < parts.len() implies (#[trigger] parts[j]).keys().len()
                == 0 by {
                assert(settled(order, &parts[j]));
                assert(parts[j].peek() is None);
                assert(parts[j].place() == 0);
            }
        },
    }
}

/// Where every component of a lawful merge stands on its last key, the last component on
/// the largest of these keys stands on the largest key of all, and the merge is aligned
/// backwards on it. Where no component stands on a key, there are no keys.
pub proof fn from_the_back<Key, Cmp, I>(order: &Cmp, parts: Seq<I>, found: Option<int>) where
    Key: ?Sized,
    Cmp: Comparator<Key>,
    I: CursorLendingIterator + Seekable<Key, Cmp> + ItemToKey<Key>,

    requires
        lawful(order, parts),
        forall|j: int|
            0 <= j < parts.len() ==> (#[trigger] parts[j]).place() == if parts[j].keys().len()
                == 0 {
                0
            } else {
                parts[j].keys().len() - 1
            },
        largest_at(order, parts, found),
    ensures
        aligned(order, parts, found, false),
        match found {
            Some(d) => nothing_above(order, parts, key_under(&parts[d])),
            None => no_keys(parts),
        },
{
    plain_parts(order, parts);
    match found {
        Some(d) => {
            assert(settled(order, &parts[d]));
            let kd = key_under(&parts[d]);
            assert forall|j: int|
                0 <= j < parts.len() && 0 <= (#[trigger] parts[j]).place()
                    < parts[j].keys().len() implies le(order, key_under(&parts[j]), kd) by {
                assert(settled(order, &parts[j]));
                assert(parts[j].peek() is Some);
            }
            assert forall|j: int| 0 <= j < parts.len() implies behind_of(
                order,
                &#[trigger] parts[j],
                kd,
            ) by {
                assert(parts[j].place() == if parts[j].keys().len() == 0 {
                    0
                } else {
                    parts[j].keys().len() - 1
                });
            }
            assert forall|j: int, q: int|
                0 <= j < parts.len() && 0 <= q < parts[j].keys().len() implies le(
                order,
                #[trigger] parts[j].keys()[q],
                kd,
            ) by {
                let keys = parts[j].keys();
                let last = keys.len() - 1;
                assert(settled(order, &parts[j]));
                assert(parts[j].place() == last);
                assert(le(order, keys[last], kd));
                assert(le(order, keys[q], keys[last]));
                total_order_chain(order, keys[q], keys[last], kd);
            }
        },
        None => {
            assert forall|j: int| 0 <= j < parts.len() implies (#[trigger] parts[j]).keys().len()
                == 0 by {
                assert(settled(order, &parts[j]));
                assert(parts[j].peek() is None);
            }
        },
    }
}

/// Where every component of a lawful merge was sought to `bound`, the first component on the
/// smallest key that one of them stands on stands on the smallest key of all that is `bound`
/// or greater, and the merge is aligned forwards on it. Where no component stands on a key,
/// every key sorts strictly before `bound`.
pub proof fn seek_settles<Key, Cmp, I>(
    order: &Cmp,
    before: Seq<I>,
    after: Seq<I>,
    bound: &Key,
    found: Option<int>,
) where
    Key: ?Sized,
    Cmp: Comparator<Key>,
    I: CursorLendingIterator + Seekable<Key, Cmp> + ItemToKey<Key>,

    requires
        lawful(order, before),
        after.len() == before.len(),
        forall|j: int|
            0 <= j < before.len() ==> sought(&before[j], &#[trigger] after[j], bound),
        smallest_at(order, after, found),
    ensures
        lawful(order, after),
        keys_kept(before, after),
        entries_kept(before, after),
        aligned(order, after, found, true),
        least_from(order, after, bound, found),
{
    assert forall|j: int| 0 <= j < after.len() implies settled(order, &#[trigger] after[j])
        && after[j].keys() == before[j].keys() && after[j].entries() == before[j].entries()
        && seek_lands(
        order,
        after[j].keys(),
        bound,
        after[j].place(),
    ) by {
        seek_in_keys(order, &before[j], &after[j], bound);
        plain_part(order, &after[j]);
    }
    match found {
        Some(d) => {
            let kd = key_under(&after[d]);
            assert(settled(order, &after[d]));
            assert(le(order, bound, kd));
            assert forall|j: int|
                0 <= j < after.len() && 0 <= (#[trigger] after[j]).place()
                    < after[j].keys().len() implies le(order, kd, key_under(&after[j])) by {
                assert(settled(order, &after[j]));
                assert(after[j].peek() is Some);
            }
            assert forall|j: int| 0 <= j < after.len() implies ahead_of(
                order,
                &#[trigger] after[j],
                kd,
            ) by {
                let keys = after[j].keys();
                let place = after[j].place();
                assert(seek_lands(order, keys, bound, place));
                assert forall|q: int| 0 <= q < place && q < keys.len() implies le(
                    order,
                    #[trigger] keys[q],
                    kd,
                ) || (place < keys.len() && le(order, keys[place], keys[q])) by {
                    total_order_chain(order, keys[q], bound, kd);
                }
            }
            assert forall|j: int, q: int|
                0 <= j < after.len() && 0 <= q < after[j].keys().len() && le(
                    order,
                    bound,
                    #[trigger] after[j].keys()[q],
                ) implies le(order, kd, after[j].keys()[q]) by {
                let keys = after[j].keys();
                let place = after[j].place();
                assert(settled(order, &after[j]));
                assert(seek_lands(order, keys, bound, place));
                total_order_chain(order, keys[q], bound, bound);
                assert(place < keys.len());
                assert(le(order, kd, keys[place]));
                total_order_chain(order, kd, keys[place], keys[q]);
            }
        },
        None => {
            assert forall|j: int, q: int|
                0 <= j < after.len() && 0 <= q < after[j].keys().len() implies lt(
                order,
                #[trigger] after[j].keys()[q],
                bound,
            ) by {
                assert(settled(order, &after[j]));
                assert(after[j].peek() is None);
                assert(seek_lands(order, after[j].keys(), bound, after[j].place()));
            }
            assert forall|j: int|
                0 <= j < after.len() implies (#[trigger] after[j]).place()
                == after[j].keys().len() by {
                assert(settled(order, &after[j]));
                assert(after[j].peek() is None);
            }
        },
    }
}

/// Where every component of a lawful merge was sought before `bound`, the last component on
/// the largest key that one of them stands on stands on the greatest key of all that sorts
/// strictly before `bound`, and the merge is aligned backwards on it. Where no component
/// stands on a key, no key sorts strictly before `bound`.
pub proof fn seek_before_settles<Key, Cmp, I>(
    order: &Cmp,
    before: Seq<I>,
    after: Seq<I>,
    bound: &Key,
    found: Option<int>,
) where
    Key: ?Sized,
    Cmp: Comparator<Key>,
    I: CursorLendingIterator + Seekable<Key, Cmp> + ItemToKey<Key>,

    requires
        lawful(order, before),
        after.len() == before.len(),
        forall|j: int|
            0 <= j < before.len() ==> sought_before(&before[j], &#[trigger] after[j], bound),
        largest_at(order, after, found),
    ensures
        lawful(order, after),
        keys_kept(before, after),
        entries_kept(before, after),
        aligned(order, after, found, false),
        greatest_before(order, after, bound, found),
{
    assert forall|j: int| 0 <= j < after.len() implies settled(order, &#[trigger] after[j])
        && after[j].keys() == before[j].keys() && after[j].entries() == before[j].entries()
        && seek_before_lands(
        order,
        after[j].keys(),
        bound,
        after[j].place(),
    ) by {
        seek_before_in_keys(order, &before[j], &after[j], bound);
        plain_part(order, &after[j]);
    }
    match found {
        Some(d) => {
            let kd = key_under(&after[d]);
            assert(settled(order, &after[d]));
            assert(lt(order, kd, bound));
            total_order_chain(order, kd, bound, bound);
            assert forall|j: int|
                0 <= j < after.len() && 0 <= (#[trigger] after[j]).place()
                    < after[j].keys().len() implies le(order, key_under(&after[j]), kd) by {
                assert(settled(order, &after[j]));
                assert(after[j].peek() is Some);
            }
            assert forall|j: int| 0 <= j < after.len() implies behind_of(
                order,
                &#[trigger] after[j],
                kd,
            ) by {
                let keys = after[j].keys();
                let place = after[j].place();
                assert(seek_before_lands(order, keys, bound, place));
                assert forall|q: int|
                    0 <= q < keys.len() && (place < q || place >= keys.len()) implies le(
                    order,
                    kd,
                    #[trigger] keys[q],
                ) || (place < keys.len() && le(order, keys[q], keys[place])) by {
                    total_order_chain(order, kd, bound, keys[q]);
                    total_order_chain(order, keys[q], bound, bound);
                }
            }
            assert forall|j: int, q: int|
                0 <= j < after.len() && 0 <= q < after[j].keys().len() && lt(
                    order,
                    #[trigger] after[j].keys()[q],
                    bound,
                ) implies le(order, after[j].keys()[q], kd) by {
                let keys = after[j].keys();
                let place = after[j].place();
                assert(settled(order, &after[j]));
                assert(seek_before_lands(order, keys, bound, place));
                total_order_chain(order, keys[q], bound, bound);
                assert(place < keys.len());
                assert(le(order, keys[place], kd));
                total_order_chain(order, keys[q], keys[place], kd);
            }
        },
        None => {
            assert forall|j: int, q: int|
                0 <= j < after.len() && 0 <= q < after[j].keys().len() implies le(
                order,
                bound,
                #[trigger] after[j].keys()[q],
            ) by {
                assert(settled(order, &after[j]));
                assert(after[j].peek() is None);
                assert(seek_before_lands(order, after[j].keys(), bound, after[j].place()));
            }
            assert forall|j: int|
                0 <= j < after.len() implies (#[trigger] after[j]).place()
                == after[j].keys().len() by {
                assert(settled(order, &after[j]));
                assert(after[j].peek() is None);
            }
        },
    }
}

} // verus!
