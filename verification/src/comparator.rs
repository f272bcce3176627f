use std::cmp::Ordering;
use vstd::prelude::*;
use vstd::std_specs::cmp::OrdSpec;

verus! {

/// Interface for comparing keys (or entries) of a sorted collection.
///
/// The comparison should provide a total order, just as [`Ord`] would, and any clone of a
/// comparator should behave identically to its source. Keys which are distinct may still
/// compare as equal.
///
/// A comparator that fails to provide a total order causes wrong results in whatever uses it,
/// never more than that: nothing here relies on [`total_order`] for anything but the order of
/// what comes out.
pub trait Comparator<Key: ?Sized> {
    /// Whether [`Comparator::cmp`] is known to compute [`Comparator::compare`].
    spec fn obeys(&self) -> bool;

    /// How `lhs` stands to `rhs` in the order of this comparator.
    spec fn compare(&self, lhs: &Key, rhs: &Key) -> Ordering;

    /// Compare two keys (or entries) in a sorted collection.
    ///
    /// This method is analogous to [`Ord::cmp`], and should provide a total order.
    fn cmp(&self, lhs: &Key, rhs: &Key) -> (order: Ordering)
        ensures
            self.obeys() ==> order == self.compare(lhs, rhs),
    ;
}

/// `lhs` sorts strictly before `rhs`.
pub open spec fn lt<Key: ?Sized, C: Comparator<Key> + ?Sized>(c: &C, lhs: &Key, rhs: &Key) -> bool {
    c.compare(lhs, rhs) == Ordering::Less
}

/// `lhs` sorts before `rhs`, or the two compare as equal.
pub open spec fn le<Key: ?Sized, C: Comparator<Key> + ?Sized>(c: &C, lhs: &Key, rhs: &Key) -> bool {
    c.compare(lhs, rhs) != Ordering::Greater
}

/// `lhs` sorts strictly after `rhs`.
pub open spec fn gt<Key: ?Sized, C: Comparator<Key> + ?Sized>(c: &C, lhs: &Key, rhs: &Key) -> bool {
    c.compare(lhs, rhs) == Ordering::Greater
}

/// The two keys compare as equal.
pub open spec fn equiv<Key: ?Sized, C: Comparator<Key> + ?Sized>(
    c: &C,
    lhs: &Key,
    rhs: &Key,
) -> bool {
    c.compare(lhs, rhs) == Ordering::Equal
}

/// The comparator computes what it says, and what it says is a total order: turning the
/// arguments round turns the answer round, and `le` is transitive.
pub open spec fn total_order<Key: ?Sized, C: Comparator<Key> + ?Sized>(c: &C) -> bool {
    &&& c.obeys()
    &&& forall|a: &Key, b: &Key| #[trigger] lt(c, a, b) <==> !le(c, b, a)
    &&& forall|a: &Key, b: &Key, d: &Key|
        #[trigger] le(c, a, b) && #[trigger] le(c, b, d) ==> le(c, a, d)
}

/// Two comparators, possibly of different types, that give the same answer on every pair.
pub open spec fn same_order<Key: ?Sized, C: Comparator<Key> + ?Sized, D: Comparator<Key> + ?Sized>(
    c: &C,
    d: &D,
) -> bool {
    forall|a: &Key, b: &Key| #[trigger] c.compare(a, b) == d.compare(a, b)
}

/// In a total order a key that sorts strictly before another also sorts before it or equal,
/// of two keys one sorts before the other or equal, and a chain of the one relation and the
/// other is strict.
pub proof fn total_order_chain<Key: ?Sized, C: Comparator<Key> + ?Sized>(
    c: &C,
    a: &Key,
    b: &Key,
    d: &Key,
)
    requires
        total_order(c),
    ensures
        le(c, a, a),
        lt(c, a, b) ==> le(c, a, b),
        !lt(c, a, b) <==> le(c, b, a),
        le(c, a, b) && le(c, b, d) ==> le(c, a, d),
        lt(c, a, b) && le(c, b, d) ==> lt(c, a, d),
        le(c, a, b) && lt(c, b, d) ==> lt(c, a, d),
        equiv(c, a, b) <==> le(c, a, b) && le(c, b, a),
{
    assert(lt(c, a, a) <==> !le(c, a, a));
    assert(lt(c, a, b) <==> !le(c, b, a));
    assert(lt(c, b, a) <==> !le(c, a, b));
    assert(lt(c, a, d) <==> !le(c, d, a));
    assert(lt(c, b, d) <==> !le(c, d, b));
    if le(c, d, a) && le(c, a, b) {
        assert(le(c, d, b));
    }
    if le(c, b, d) && le(c, d, a) {
        assert(le(c, b, a));
    }
}

/// Whether `lhs` sorts strictly before `rhs`.
pub fn precedes<Key: ?Sized, C: Comparator<Key> + ?Sized>(c: &C, lhs: &Key, rhs: &Key) -> (b: bool)
    ensures
        c.obeys() ==> b == lt(c, lhs, rhs),
{
    match c.cmp(lhs, rhs) {
        Ordering::Less => true,
        Ordering::Equal => false,
        Ordering::Greater => false,
    }
}

/// Whether `lhs` sorts strictly after `rhs`.
pub fn follows<Key: ?Sized, C: Comparator<Key> + ?Sized>(c: &C, lhs: &Key, rhs: &Key) -> (b: bool)
    ensures
        c.obeys() ==> b == gt(c, lhs, rhs),
{
    match c.cmp(lhs, rhs) {
        Ordering::Less => false,
        Ordering::Equal => false,
        Ordering::Greater => true,
    }
}

/// Whether the two keys compare as equal.
pub fn ties<Key: ?Sized, C: Comparator<Key> + ?Sized>(c: &C, lhs: &Key, rhs: &Key) -> (b: bool)
    ensures
        c.obeys() ==> b == equiv(c, lhs, rhs),
{
    match c.cmp(lhs, rhs) {
        Ordering::Less => false,
        Ordering::Equal => true,
        Ordering::Greater => false,
    }
}

/// A [`Comparator`] which uses keys' [`Ord`] implementations.
#[derive(Default, Debug, Clone, Copy, PartialEq, Eq, PartialOrd, Ord, Hash)]
pub struct DefaultComparator;

impl<Key: ?Sized + Ord> Comparator<Key> for DefaultComparator {
    open spec fn obeys(&self) -> bool {
        Key::obeys_cmp_spec()
    }

    open spec fn compare(&self, lhs: &Key, rhs: &Key) -> Ordering {
        lhs.cmp_spec(rhs)
    }

    /// Equivalent to `Ord::cmp(lhs, rhs)`.
    #[inline]
    fn cmp(&self, lhs: &Key, rhs: &Key) -> (order: Ordering) {
        Ord::cmp(lhs, rhs)
    }
}

/// On `u8` keys the default comparator is the usual order of the numbers.
pub proof fn default_order_u8()
    ensures
        total_order::<u8, DefaultComparator>(&DefaultComparator),
        forall|a: &u8, b: &u8| #[trigger] le(&DefaultComparator, a, b) <==> *a <= *b,
        forall|a: &u8, b: &u8| #[trigger] lt(&DefaultComparator, a, b) <==> *a < *b,
{
}

} // verus!
