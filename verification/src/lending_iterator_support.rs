use vstd::prelude::*;

verus! {

/// Lets a bound on a lending iterator's item be implied for every lifetime of the loan.
pub trait ImplyBound: Sealed {

}

/// Keeps [`ImplyBound`] to the types that this module gives it to.
pub trait Sealed {

}

impl<T: ?Sized> ImplyBound for &T {

}

impl<T: ?Sized> Sealed for &T {

}

/// Trait for getting the item of a lending iterator.
///
/// The lifetime can force the consumer to drop the item before obtaining a new item (which
/// requires a mutable borrow to the iterator, invalidating the borrow of the previous item).
pub trait LendItem<'lend, __ImplyBound: ImplyBound = &'lend Self> {
    /// The item of a lending iterator, with a particular lifetime.
    type Item: 'lend;
}

/// The item of a lending iterator, with a particular lifetime.
pub type LentItem<'lend, L> = <L as LendItem<'lend>>::Item;

} // verus!
