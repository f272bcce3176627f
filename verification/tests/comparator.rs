use std::cmp::Ordering;

use seekable_iterator::{follows, precedes, ties, Comparator, DefaultComparator};

struct Backwards;

impl Comparator<u8> for Backwards {
    fn obeys(&self) -> bool {
        true
    }

    fn compare(&self, lhs: &u8, rhs: &u8) -> Ordering {
        rhs.cmp(lhs)
    }

    fn cmp(&self, lhs: &u8, rhs: &u8) -> Ordering {
        rhs.cmp(lhs)
    }
}

#[test]
fn default_comparator_is_the_order_of_ord() {
    assert_eq!(Comparator::<u8>::cmp(&DefaultComparator, &1, &2), Ordering::Less);
    assert_eq!(Comparator::<u8>::cmp(&DefaultComparator, &2, &2), Ordering::Equal);
    assert_eq!(Comparator::<u8>::cmp(&DefaultComparator, &3, &2), Ordering::Greater);
    assert_eq!(Comparator::<str>::cmp(&DefaultComparator, "abc", "abd"), Ordering::Less);
    assert_eq!(Comparator::<[u8]>::cmp(&DefaultComparator, &[1, 2][..], &[1][..]), Ordering::Greater);
}

#[test]
fn precedes_and_ties_follow_the_comparator() {
    assert!(precedes(&DefaultComparator, &1u8, &2u8));
    assert!(!precedes(&DefaultComparator, &2u8, &2u8));
    assert!(!precedes(&DefaultComparator, &3u8, &2u8));
    assert!(ties(&DefaultComparator, &2u8, &2u8));
    assert!(!ties(&DefaultComparator, &1u8, &2u8));

    assert!(precedes(&Backwards, &3u8, &2u8));
    assert!(!precedes(&Backwards, &1u8, &2u8));
    assert!(ties(&Backwards, &7u8, &7u8));
}

#[test]
fn follows_is_the_strict_greater_than() {
    assert!(follows(&DefaultComparator, &3_u8, &2_u8));
    assert!(!follows(&DefaultComparator, &2_u8, &2_u8));
    assert!(!follows(&DefaultComparator, &2_u8, &3_u8));
}
