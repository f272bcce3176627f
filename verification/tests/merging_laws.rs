use seekable_iterator::{
    CursorLendingIterator, DefaultComparator, MergingIter, PooledIter, PooledIterator, Seekable,
    TestIter,
};

type Merge<'a> = MergingIter<u8, DefaultComparator, TestIter<'a>>;

fn merge_of<'a>(parts: &[&'a [u8]]) -> Merge<'a> {
    MergingIter::new(
        parts.iter().map(|data| TestIter::with_repeats(data).unwrap()).collect(),
        DefaultComparator,
    )
}

fn all_sorted(parts: &[&[u8]]) -> Vec<u8> {
    let mut all: Vec<u8> = parts.iter().flat_map(|data| data.iter().copied()).collect();
    all.sort_unstable();
    all
}

fn drain_forwards(iter: &mut Merge<'_>) -> Vec<u8> {
    let mut out = Vec::new();
    while let Some(item) = iter.next() {
        out.push(*item);
    }
    out
}

fn drain_backwards(iter: &mut Merge<'_>) -> Vec<u8> {
    let mut out = Vec::new();
    while let Some(item) = iter.current() {
        out.push(*item);
        iter.prev();
    }
    out
}

#[test]
fn forward_pass_yields_the_sorted_union() {
    let cases: [&[&[u8]]; 5] = [
        &[&[0, 3, 6, 7], &[1, 5, 8], &[2, 4, 9]],
        &[&[1, 2, 3], &[1, 2, 3], &[2]],
        &[&[], &[5], &[]],
        &[],
        &[&[0, 0, 1], &[0, 1, 1]],
    ];
    for parts in cases {
        let mut iter = merge_of(parts);
        iter.reset();
        assert_eq!(drain_forwards(&mut iter), all_sorted(parts));
        assert!(!iter.valid());
        // The merge goes round as any cursor does.
        assert_eq!(drain_forwards(&mut iter), all_sorted(parts));
    }
}

#[test]
fn backward_pass_yields_the_sorted_union_in_reverse() {
    let cases: [&[&[u8]]; 4] = [
        &[&[0, 3, 6, 7], &[1, 5, 8], &[2, 4, 9]],
        &[&[1, 2, 3], &[1, 2, 3], &[2]],
        &[&[], &[5], &[]],
        &[],
    ];
    for parts in cases {
        let mut iter = merge_of(parts);
        iter.seek_to_last();
        let mut expected = all_sorted(parts);
        expected.reverse();
        assert_eq!(drain_backwards(&mut iter), expected);
        assert!(!iter.valid());
    }
}

#[test]
fn seek_lands_on_the_least_key_from_the_bound() {
    let parts: &[&[u8]] = &[&[10, 40, 70], &[20, 50, 80], &[30, 60, 90]];
    let all = all_sorted(parts);
    let mut iter = merge_of(parts);
    for bound in 0..=100u8 {
        iter.seek(&bound);
        let expected = all.iter().copied().find(|key| *key >= bound);
        assert_eq!(iter.current().copied(), expected);
        assert_eq!(iter.valid(), expected.is_some());

        iter.seek_before(&bound);
        let expected = all.iter().copied().rev().find(|key| *key < bound);
        assert_eq!(iter.current().copied(), expected);
    }
}

#[test]
fn ties_go_to_the_first_forwards_and_to_the_last_backwards() {
    let one: &[u8] = &[2];
    let two: &[u8] = &[2];
    let three: &[u8] = &[2];
    let mut iter = merge_of(&[one, two, three]);

    iter.seek_to_first();
    assert!(std::ptr::eq(iter.current().unwrap(), &one[0]));
    iter.seek(&2);
    assert!(std::ptr::eq(iter.current().unwrap(), &one[0]));
    assert!(std::ptr::eq(iter.next().unwrap(), &two[0]));
    assert!(std::ptr::eq(iter.next().unwrap(), &three[0]));

    iter.seek_to_last();
    assert!(std::ptr::eq(iter.current().unwrap(), &three[0]));
    iter.seek_before(&3);
    assert!(std::ptr::eq(iter.current().unwrap(), &three[0]));
    assert!(std::ptr::eq(iter.prev().unwrap(), &two[0]));
    assert!(std::ptr::eq(iter.prev().unwrap(), &one[0]));
}

/// The distinct key that follows `key` in `all`, if there is one.
fn key_after(all: &[u8], key: u8) -> Option<u8> {
    all.iter().copied().find(|other| *other > key)
}

/// The distinct key that comes before `key` in `all`, if there is one.
fn key_before(all: &[u8], key: u8) -> Option<u8> {
    all.iter().copied().rev().find(|other| *other < key)
}

#[test]
fn no_key_is_passed_over_whatever_the_turns() {
    let parts: &[&[u8]] = &[&[1, 2, 2, 3, 8], &[0, 2, 2, 5], &[2, 3, 3, 9]];
    let all = all_sorted(parts);
    let mut iter = merge_of(parts);

    // A fixed walk of turns, long enough to meet every run of equal keys from both sides.
    let mut state: u32 = 12345;
    iter.seek_to_first();
    for _ in 0..2000 {
        state = state.wrapping_mul(1_103_515_245).wrapping_add(12345);
        let forwards = (state >> 16) % 3 != 0;
        let from = iter.current().copied();
        let to = if forwards { iter.next().copied() } else { iter.prev().copied() };
        match (from, to, forwards) {
            (Some(from), Some(to), true) => {
                assert!(to >= from);
                assert!(to == from || Some(to) == key_after(&all, from));
            }
            (Some(from), None, true) => assert_eq!(key_after(&all, from), None),
            (None, Some(to), true) => assert_eq!(to, all[0]),
            (Some(from), Some(to), false) => {
                assert!(to <= from);
                assert!(to == from || Some(to) == key_before(&all, from));
            }
            (Some(from), None, false) => assert_eq!(key_before(&all, from), None),
            (None, Some(to), false) => assert_eq!(to, *all.last().unwrap()),
            (None, None, _) => panic!("a merge with entries cannot stay on none"),
        }
    }
}

#[test]
fn new_merge_starts_at_the_phantom_position() {
    let mut iter = merge_of(&[&[4, 5], &[1]]);
    assert!(!iter.valid());
    assert!(iter.current().is_none());
    assert_eq!(iter.next(), Some(&1));

    let mut empty = merge_of(&[]);
    assert!(empty.next().is_none());
    assert!(empty.prev().is_none());
    empty.seek(&3);
    assert!(!empty.valid());
}

#[test]
fn merge_can_be_pooled() {
    let mut pooled = PooledIter::<_, u8>::new(merge_of(&[&[1, 4], &[2, 3]]), 5);
    let items: Vec<_> = std::iter::from_fn(|| pooled.try_next().unwrap()).collect();
    let values: Vec<u8> = items.iter().map(|item| **item).collect();
    assert_eq!(values, [1, 2, 3, 4]);
    assert_eq!(pooled.available_buffers(), 1);
    drop(items);
    assert_eq!(pooled.available_buffers(), 5);
    pooled.seek(&3);
    assert_eq!(*pooled.try_next().unwrap().unwrap(), 4);
}

#[test]
fn three_components_are_merged_in_ten_steps() {
    let mut iter = merge_of(&[&[0, 3, 6, 7], &[1, 5, 8], &[2, 4, 9]]);
    for expected in 0..10u8 {
        assert_eq!(iter.next(), Some(&expected));
    }
    assert_eq!(iter.next(), None);
}

#[test]
fn seeks_on_a_single_component() {
    let mut iter = merge_of(&[&[0, 1, 2, 3, 4, 5, 6, 7, 8, 9, 99]]);
    iter.seek(&10);
    assert_eq!(iter.current(), Some(&99));
    iter.seek_before(&99);
    assert_eq!(iter.current(), Some(&9));
    iter.seek_before(&0);
    assert!(!iter.valid());
    assert_eq!(iter.current(), None);
}

#[test]
fn with_unique_keys_each_step_is_undone_by_the_step_back() {
    let parts: &[&[u8]] = &[&[10, 40, 70], &[20, 50, 80], &[30, 60, 90], &[]];
    let all = all_sorted(parts);
    let mut iter = merge_of(parts);

    // The merge is a cursor over `all`: its index is a position in it.
    let mut index = all.len();
    let mut state: u32 = 777;
    for _ in 0..3000 {
        state = state.wrapping_mul(1_103_515_245).wrapping_add(12345);
        match (state >> 16) % 5 {
            0 | 1 => {
                iter.next();
                index = if index >= all.len() { 0 } else { index + 1 };
            }
            2 | 3 => {
                iter.prev();
                index = if index == 0 { all.len() } else { index - 1 };
            }
            _ => {
                let bound = ((state >> 8) % 100) as u8;
                iter.seek(&bound);
                index = all.iter().position(|key| *key >= bound).unwrap_or(all.len());
            }
        }
        assert_eq!(iter.current(), all.get(index));
        assert_eq!(iter.valid(), index < all.len());
    }
}

#[test]
fn reset_leads_back_to_the_phantom_position() {
    let mut iter = merge_of(&[&[1, 2], &[3]]);
    iter.seek(&2);
    assert!(iter.valid());
    iter.reset();
    assert!(!iter.valid());
    assert_eq!(iter.prev(), Some(&3));
    iter.reset();
    assert_eq!(iter.next(), Some(&1));
}

#[test]
fn components_without_repeats_are_merged_in_order() {
    let one: &[u8] = &[1, 4, 7];
    let two: &[u8] = &[2, 4, 8];
    let mut iter = MergingIter::new(
        vec![TestIter::new(one).unwrap(), TestIter::new(two).unwrap()],
        DefaultComparator,
    );
    iter.reset();
    assert_eq!(drain_forwards(&mut iter), [1, 2, 4, 4, 7, 8]);
}

fn merge_standing_on<'a>(parts: &[(&'a [u8], u8)]) -> Merge<'a> {
    let mut components = Vec::new();
    for (data, bound) in parts {
        let mut component = TestIter::new(data).unwrap();
        component.seek(bound);
        components.push(component);
    }
    MergingIter::new(components, DefaultComparator)
}

#[test]
fn find_smallest_iter_stands_on_the_least_key() {
    // The components stand on 5, 2 and 4.
    let mut iter = merge_standing_on(&[(&[1, 5, 9], 5), (&[2, 6], 2), (&[0, 4, 8], 3)]);
    assert!(!iter.valid());
    assert!(iter.get_current_iter_ref().is_none());
    iter.find_smallest_iter();
    assert!(iter.valid());
    assert_eq!(iter.current(), Some(&2));
    // The merge stands on the second component, which has 6 after its 2.
    let mut component = TestIter::new(&[2, 6]).unwrap();
    component.seek(&2);
    assert_eq!(iter.get_current_iter_ref().unwrap().current(), component.current());
    assert_eq!(iter.next(), Some(&4));
    assert_eq!(iter.next(), Some(&5));
    assert_eq!(iter.next(), Some(&6));

    // Where no component stands on an entry, neither does the merge.
    let mut iter = merge_standing_on(&[(&[1, 5, 9], 10), (&[], 0)]);
    iter.find_smallest_iter();
    assert!(!iter.valid());
    assert_eq!(iter.current(), None);
}

#[test]
fn find_largest_iter_stands_on_the_greatest_key() {
    // The components stand on 5, 2 and 4.
    let mut iter = merge_standing_on(&[(&[1, 5, 9], 5), (&[2, 6], 2), (&[0, 4, 8], 3)]);
    iter.find_largest_iter();
    assert!(iter.valid());
    assert_eq!(iter.current(), Some(&5));

    let mut iter = merge_standing_on(&[(&[], 0), (&[3], 4)]);
    iter.find_largest_iter();
    assert!(!iter.valid());
}

#[test]
fn switch_to_backwards_puts_the_others_behind_the_given_component() {
    let mut iter = merge_of(&[&[1, 3, 5], &[2, 4]]);
    iter.seek_to_first();
    assert_eq!(iter.current(), Some(&1));
    // The second component stands on 2: the first is put on the last key before 2.
    iter.switch_to_backwards(1);
    assert_eq!(iter.current(), Some(&2));
    assert_eq!(iter.prev(), Some(&1));
    assert_eq!(iter.prev(), None);
}

#[test]
fn switch_to_forwards_puts_the_others_in_front_of_the_given_component() {
    let mut iter = merge_of(&[&[1, 3, 5], &[2, 3, 4]]);
    iter.seek_to_last();
    assert_eq!(iter.current(), Some(&5));
    iter.prev();
    iter.prev();
    // Backwards the later of the two equal keys comes first.
    assert_eq!(iter.current(), Some(&3));
    // The second component stands on 3: the first is put past its own 3, on 5.
    iter.switch_to_forwards(1);
    assert_eq!(iter.current(), Some(&3));
    assert_eq!(iter.next(), Some(&4));
    assert_eq!(iter.next(), Some(&5));
    assert_eq!(iter.next(), None);
}
