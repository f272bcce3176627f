use seekable_iterator::{
    has_no_repeats, is_sorted, lower_bound, upper_bound, CursorLendingIterator, ItemToKey,
    Seekable, TestIter,
};

#[test]
fn sortedness_is_told() {
    assert!(is_sorted(&[]));
    assert!(is_sorted(&[5]));
    assert!(is_sorted(&[1, 2, 2, 3]));
    assert!(!is_sorted(&[1, 3, 2]));
    assert!(!is_sorted(&[2, 1]));
}

#[test]
fn bounds_are_found() {
    let data: &[u8] = &[1, 3, 3, 3, 7, 9];
    assert_eq!(lower_bound(data, 0), 0);
    assert_eq!(lower_bound(data, 1), 0);
    assert_eq!(lower_bound(data, 2), 1);
    assert_eq!(lower_bound(data, 3), 1);
    assert_eq!(lower_bound(data, 4), 4);
    assert_eq!(lower_bound(data, 9), 5);
    assert_eq!(lower_bound(data, 10), 6);

    assert_eq!(upper_bound(data, 0), 0);
    assert_eq!(upper_bound(data, 1), 1);
    assert_eq!(upper_bound(data, 3), 4);
    assert_eq!(upper_bound(data, 8), 5);
    assert_eq!(upper_bound(data, 9), 6);

    assert_eq!(lower_bound(&[], 4), 0);
    assert_eq!(upper_bound(&[], 4), 0);
}

#[test]
fn unsorted_data_is_refused() {
    assert!(TestIter::new(&[1, 0]).is_none());
    assert!(TestIter::new(&[2, 1]).is_none());
    assert!(TestIter::new(&[0, 1, 2, 1]).is_none());
    assert!(TestIter::new(&[]).is_some());
    assert!(TestIter::new(&[7]).is_some());
    assert!(TestIter::new(&[1, 2, 3]).is_some());

    assert!(TestIter::with_repeats(&[1, 0]).is_none());
    assert!(TestIter::with_repeats(&[0, 1, 2, 1]).is_none());
    assert!(TestIter::with_repeats(&[]).is_some());
}

#[test]
fn repeated_bytes_are_refused_unless_asked_for() {
    assert!(TestIter::new(&[4, 4]).is_none());
    assert!(TestIter::new(&[1, 2, 2, 3]).is_none());
    assert!(TestIter::new(&[0, 0, 1]).is_none());
    assert!(TestIter::with_repeats(&[4, 4]).is_some());
    assert!(TestIter::with_repeats(&[1, 2, 2, 3]).is_some());

    assert!(has_no_repeats(&[]));
    assert!(has_no_repeats(&[3]));
    assert!(has_no_repeats(&[1, 2, 1]));
    assert!(!has_no_repeats(&[1, 1]));
    assert!(!has_no_repeats(&[0, 5, 5, 9]));
}

#[test]
fn cursor_goes_round_in_both_directions() {
    let data: &[u8] = &[10, 20, 30];
    let mut iter = TestIter::new(data).unwrap();
    assert!(!iter.valid());
    assert_eq!(iter.current(), None);

    assert_eq!(iter.next(), Some(&10));
    assert_eq!(iter.next(), Some(&20));
    assert_eq!(iter.current(), Some(&20));
    assert!(iter.valid());
    assert_eq!(iter.next(), Some(&30));
    assert_eq!(iter.next(), None);
    assert!(!iter.valid());
    assert_eq!(iter.next(), Some(&10));

    assert_eq!(iter.prev(), None);
    assert_eq!(iter.prev(), Some(&30));
    assert_eq!(iter.prev(), Some(&20));
    assert_eq!(iter.prev(), Some(&10));
    assert_eq!(iter.prev(), None);
}

#[test]
fn empty_cursor_stays_at_the_phantom_position() {
    let mut iter = TestIter::new(&[]).unwrap();
    assert_eq!(iter.next(), None);
    assert_eq!(iter.prev(), None);
    iter.seek_to_first();
    assert!(!iter.valid());
    iter.seek_to_last();
    assert!(!iter.valid());
    iter.seek(&0);
    assert!(!iter.valid());
    iter.seek_before(&255);
    assert!(!iter.valid());
}

#[test]
fn seeks_land_by_key() {
    let data: &[u8] = &[1, 3, 3, 3, 7, 9];
    let mut iter = TestIter::with_repeats(data).unwrap();

    iter.seek(&0);
    assert_eq!(iter.current(), Some(&1));
    iter.seek(&2);
    assert_eq!(iter.current(), Some(&3));
    // Of equal keys a seek takes the last.
    iter.seek(&3);
    assert_eq!(iter.current(), Some(&3));
    assert_eq!(iter.next(), Some(&7));
    iter.seek(&8);
    assert_eq!(iter.current(), Some(&9));
    iter.seek(&10);
    assert_eq!(iter.current(), None);

    iter.seek_before(&1);
    assert_eq!(iter.current(), None);
    iter.seek_before(&3);
    assert_eq!(iter.current(), Some(&1));
    iter.seek_before(&4);
    assert_eq!(iter.current(), Some(&3));
    assert_eq!(iter.next(), Some(&7));
    iter.seek_before(&200);
    assert_eq!(iter.current(), Some(&9));

    iter.seek_to_first();
    assert_eq!(iter.current(), Some(&1));
    iter.seek_to_last();
    assert_eq!(iter.current(), Some(&9));
    iter.reset();
    assert_eq!(iter.current(), None);
}

#[test]
fn an_item_is_its_own_key() {
    let value = 42u8;
    assert_eq!(<TestIter<'_> as ItemToKey<u8>>::item_to_key(&value), &42);
}
