use vstd::prelude::*;

use crate::comparator::{default_order_u8, DefaultComparator};
use crate::cursor::{entry_at, index_after_next, index_after_prev, CursorLendingIterator};
use crate::lending_iterator_support::{LendItem, LentItem};
use crate::merging_spec::kindred;
use crate::seekable::{ItemToKey, Seekable};

verus! {

/// No element of `data` is less than one that stands before it.
pub open spec fn non_decreasing(data: Seq<u8>) -> bool {
    forall|i: int, j: int| 0 <= i <= j < data.len() ==> data[i] <= data[j]
}

/// The number of elements of `data` that are less than `bound`: the index of the first that is
/// `bound` or greater.
pub open spec fn first_at_least(data: Seq<u8>, bound: u8, at: int) -> bool {
    &&& 0 <= at <= data.len()
    &&& forall|i: int| 0 <= i < at ==> data[i] < bound
    &&& forall|i: int| at <= i < data.len() ==> data[i] >= bound
}

/// The number of elements of `data` that are `bound` or less: the index of the first that is
/// greater.
pub open spec fn first_above(data: Seq<u8>, bound: u8, at: int) -> bool {
    &&& 0 <= at <= data.len()
    &&& forall|i: int| 0 <= i < at ==> data[i] <= bound
    &&& forall|i: int| at <= i < data.len() ==> data[i] > bound
}

/// Where a seek to `bound` comes to rest in `data`: on the last element equal to `bound`; if
/// there is none, on the first that is greater; if there is none either, at `data.len()`.
pub open spec fn seek_index(data: Seq<u8>, bound: u8, at: int) -> bool {
    &&& 0 <= at <= data.len()
    &&& forall|i: int| 0 <= i < at ==> data[i] <= bound
    &&& forall|i: int| at < i < data.len() ==> data[i] > bound
    &&& at < data.len() ==> data[at] >= bound
    &&& 0 < at < data.len() && data[at] > bound ==> data[at - 1] < bound
    &&& 0 < at == data.len() ==> data[at - 1] < bound
}

/// Where a seek before `bound` comes to rest in `data`: on the last element that is less than
/// `bound`, or at `data.len()` if there is none.
pub open spec fn seek_before_index(data: Seq<u8>, bound: u8, at: int) -> bool {
    &&& 0 <= at <= data.len()
    &&& at == data.len() ==> forall|i: int| 0 <= i < data.len() ==> data[i] >= bound
    &&& at < data.len() ==> forall|i: int| 0 <= i <= at ==> data[i] < bound
    &&& at < data.len() ==> forall|i: int| at < i < data.len() ==> data[i] >= bound
}

/// No element of `data` is the one before it once more.
pub open spec fn no_repeats(data: Seq<u8>) -> bool {
    forall|i: int| 0 <= i && i + 1 < data.len() ==> data[i] != #[trigger] data[i + 1]
}

/// Each element of `data` is greater than the one before it.
pub open spec fn strictly_increasing(data: Seq<u8>) -> bool {
    forall|i: int| 0 <= i && i + 1 < data.len() ==> data[i] < #[trigger] data[i + 1]
}

/// Where each element is greater than the one before it, none is less than any before it.
pub proof fn increasing_is_sorted(data: Seq<u8>, i: int, j: int)
    requires
        strictly_increasing(data),
        0 <= i <= j < data.len(),
    ensures
        data[i] <= data[j],
    decreases j - i,
{
    if i < j {
        increasing_is_sorted(data, i, j - 1);
        assert(data[j - 1] < data[j - 1 + 1]);
    }
}

/// Whether no element of `data` is the one before it once more.
pub fn has_no_repeats(data: &[u8]) -> (distinct: bool)
    ensures
        distinct == no_repeats(data@),
{
    let mut i: usize = 1;
    while i < data.len()
        invariant
            1 <= i,
            forall|a: int|
                0 <= a && a + 1 < i && a + 1 < data.len() ==> data@[a] != #[trigger] data@[a + 1],
        decreases data.len() - i,
    {
        if data[i - 1] == data[i] {
            assert(data@[i - 1] == data@[i - 1 + 1]);
            return false;
        }
        i += 1;
    }
    true
}

/// Whether no element of `data` is less than the one before it.
pub fn is_sorted(data: &[u8]) -> (sorted: bool)
    ensures
        sorted == non_decreasing(data@),
{
    let mut i: usize = 1;
    while i < data.len()
        invariant
            1 <= i,
            forall|a: int, b: int| 0 <= a <= b < i && b < data.len() ==> data@[a] <= data@[b],
        decreases data.len() - i,
    {
        if data[i - 1] > data[i] {
            return false;
        }
        i += 1;
    }
    true
}

/// The index of the first element of the sorted `data` that is `bound` or greater.
pub fn lower_bound(data: &[u8], bound: u8) -> (at: usize)
    requires
        non_decreasing(data@),
    ensures
        first_at_least(data@, bound, at as int),
{
    let mut low: usize = 0;
    let mut high: usize = data.len();
    while low < high
        invariant
            low <= high <= data.len(),
            non_decreasing(data@),
            forall|i: int| 0 <= i < low ==> data@[i] < bound,
            forall|i: int| high <= i < data.len() ==> data@[i] >= bound,
        decreases high - low,
    {
        let mid: usize = low + (high - low) / 2;
        if data[mid] < bound {
            low = mid + 1;
        } else {
            high = mid;
        }
    }
    low
}

/// The index of the first element of the sorted `data` that is greater than `bound`.
pub fn upper_bound(data: &[u8], bound: u8) -> (at: usize)
    requires
        non_decreasing(data@),
    ensures
        first_above(data@, bound, at as int),
{
    let mut low: usize = 0;
    let mut high: usize = data.len();
    while low < high
        invariant
            low <= high <= data.len(),
            non_decreasing(data@),
            forall|i: int| 0 <= i < low ==> data@[i] <= bound,
            forall|i: int| high <= i < data.len() ==> data@[i] > bound,
        decreases high - low,
    {
        let mid: usize = low + (high - low) / 2;
        if data[mid] <= bound {
            low = mid + 1;
        } else {
            high = mid;
        }
    }
    low
}

/// A cursor over a sorted slice of bytes, each byte its own key.
pub struct TestIter<'a> {
    data: &'a [u8],
    cursor: Option<usize>,
}

impl<'a> TestIter<'a> {
    #[verifier::type_invariant]
    spec fn inv(&self) -> bool {
        &&& non_decreasing(self.data@)
        &&& self.cursor matches Some(i) ==> i < self.data@.len()
    }

    /// The bytes that the cursor moves over.
    pub closed spec fn data(&self) -> Seq<u8> {
        self.data@
    }

    /// The index of the byte under the cursor, or `data().len()` at the phantom position.
    pub closed spec fn at(&self) -> int {
        match self.cursor {
            Some(i) => i as int,
            None => self.data@.len() as int,
        }
    }

    /// The bytes that the cursor moves over, each by reference, as the cursor lends them.
    pub open spec fn lent(&self) -> Seq<&u8> {
        Seq::new(self.data().len(), |i: int| &self.data()[i])
    }

    /// A cursor at the phantom position of `data`, if `data` is sorted and has no byte twice;
    /// nothing if it is not.
    pub fn new(data: &'a [u8]) -> (iter: Option<Self>)
        ensures
            iter is Some == strictly_increasing(data@),
            iter matches Some(it) ==> it.plain() && it.data() == data@ && it.at() == data@.len(),
    {
        if is_sorted(data) && has_no_repeats(data) {
            proof {
                assert forall|i: int| 0 <= i && i + 1 < data@.len() implies data@[i]
                    < #[trigger] data@[i + 1] by {
                    assert(data@[i] <= data@[i + 1]);
                }
            }
            Some(Self { data, cursor: None })
        } else {
            proof {
                if strictly_increasing(data@) {
                    assert forall|i: int, j: int| 0 <= i <= j < data@.len() implies data@[i]
                        <= data@[j] by {
                        increasing_is_sorted(data@, i, j);
                    }
                }
            }
            None
        }
    }

    /// A cursor at the phantom position of `data`, if `data` is sorted; nothing if it is not.
    /// A byte may stand in `data` more than once. A seek to such a byte comes to rest on the
    /// last of its kind, a seek before it on the byte before the first of its kind.
    pub fn with_repeats(data: &'a [u8]) -> (iter: Option<Self>)
        ensures
            iter is Some == non_decreasing(data@),
            iter matches Some(it) ==> it.plain() && it.data() == data@ && it.at() == data@.len(),
    {
        if is_sorted(data) {
            Some(Self { data, cursor: None })
        } else {
            None
        }
    }
}

/// A `TestIter` is of a kindred type: what it says of
/// itself as a cursor and as seekable is one account.
pub proof fn test_iter_is_kindred<'a>()
    ensures
        kindred::<u8, DefaultComparator, TestIter<'a>>(),
{
    default_order_u8();
    assert forall|it: TestIter<'a>|
        #![trigger it.plain()]
        #![trigger it.sorted()]
        {
            &&& it.plain() == it.sorted()
            &&& it.plain() ==> it.place() == it.index()
            &&& it.plain() ==> it.keys().len() == it.entries().len()
            &&& it.plain() ==> forall|q: int|
                0 <= q < it.keys().len() ==> #[trigger] it.keys()[q] == TestIter::key_of(
                    it.entries()[q],
                )
        } by {}
    assert forall|a: TestIter<'a>, b: TestIter<'a>|
        a.plain() && b.plain() && #[trigger] b.same_collection(&a) implies b.entries()
        == a.entries() by {}
    assert forall|a: TestIter<'a>, b: TestIter<'a>|
        a.plain() && b.plain() && #[trigger] b.same_source(&a) implies b.comparator()
        == a.comparator() by {}
}

impl<'lend> LendItem<'lend> for TestIter<'_> {
    type Item = &'lend u8;
}

impl CursorLendingIterator for TestIter<'_> {
    open spec fn peek(&self) -> Option<&u8> {
        entry_at(self.lent(), self.at())
    }

    open spec fn entries(&self) -> Seq<&u8> {
        self.lent()
    }

    open spec fn index(&self) -> int {
        self.at()
    }

    closed spec fn plain(&self) -> bool {
        self.inv()
    }

    open spec fn same_source(&self, other: &Self) -> bool {
        self.data() == other.data()
    }

    proof fn plain_peek(&self) {
    }

    fn valid(&self) -> (valid: bool) {
        proof {
            use_type_invariant(self);
        }
        self.cursor.is_some()
    }

    fn next(&mut self) -> (item: Option<&u8>)
        ensures
            final(self).plain(),
            final(self).data() == old(self).data(),
            final(self).at() == index_after_next(old(self).at(), old(self).data().len() as int),
    {
        proof {
            use_type_invariant(&*self);
        }
        let len: usize = self.data.len();
        let next_idx: usize = if let Some(idx) = self.cursor {
            idx + 1
        } else {
            0
        };

        self.cursor = if next_idx < len {
            Some(next_idx)
        } else {
            None
        };

        self.current()
    }

    fn current(&self) -> (item: Option<&u8>) {
        proof {
            use_type_invariant(self);
        }
        match self.cursor {
            Some(idx) => Some(&self.data[idx]),
            None => None,
        }
    }

    fn prev(&mut self) -> (item: Option<&u8>)
        ensures
            final(self).plain(),
            final(self).data() == old(self).data(),
            final(self).at() == index_after_prev(old(self).at(), old(self).data().len() as int),
    {
        proof {
            use_type_invariant(&*self);
        }
        let current_cursor_idx: usize = if let Some(idx) = self.cursor {
            idx
        } else {
            self.data.len()
        };

        self.cursor = current_cursor_idx.checked_sub(1);

        self.current()
    }
}

impl ItemToKey<u8> for TestIter<'_> {
    open spec fn key_of(item: LentItem<'_, Self>) -> &'_ u8 {
        item
    }

    fn item_to_key(item: LentItem<'_, Self>) -> (key: &'_ u8) {
        item
    }
}

impl Seekable<u8, DefaultComparator> for TestIter<'_> {
    open spec fn keys(&self) -> Seq<&u8> {
        self.lent()
    }

    open spec fn place(&self) -> int {
        self.at()
    }

    open spec fn comparator(&self) -> &DefaultComparator {
        &DefaultComparator
    }

    closed spec fn sorted(&self) -> bool {
        self.inv()
    }

    open spec fn same_collection(&self, other: &Self) -> bool {
        self.data() == other.data()
    }

    proof fn sorted_keys(&self) {
        default_order_u8();
    }

    fn reset(&mut self)
        ensures
            final(self).sorted(),
            final(self).data() == old(self).data(),
            final(self).at() == old(self).data().len(),
    {
        proof {
            use_type_invariant(&*self);
        }
        self.cursor = None;
    }

    fn seek(&mut self, min_bound: &u8)
        ensures
            final(self).sorted(),
            final(self).data() == old(self).data(),
            seek_index(old(self).data(), *min_bound, final(self).at()),
    {
        proof {
            use_type_invariant(&*self);
            default_order_u8();
        }
        let following: usize = upper_bound(self.data, *min_bound);
        self.cursor = if following > 0 && self.data[following - 1] == *min_bound {
            Some(following - 1)
        } else if following < self.data.len() {
            Some(following)
        } else {
            None
        };
    }

    fn seek_before(&mut self, strict_upper_bound: &u8)
        ensures
            final(self).sorted(),
            final(self).data() == old(self).data(),
            seek_before_index(old(self).data(), *strict_upper_bound, final(self).at()),
    {
        proof {
            use_type_invariant(&*self);
            default_order_u8();
        }
        self.cursor = lower_bound(self.data, *strict_upper_bound).checked_sub(1);
    }

    fn seek_to_first(&mut self)
        ensures
            final(self).sorted(),
            final(self).data() == old(self).data(),
            final(self).at() == 0,
    {
        self.reset();
        self.next();
    }

    fn seek_to_last(&mut self)
        ensures
            final(self).sorted(),
            final(self).data() == old(self).data(),
            final(self).at() == index_after_prev(
                old(self).data().len() as int,
                old(self).data().len() as int,
            ),
    {
        self.reset();
        self.prev();
    }
}

} // verus!
