use vstd::prelude::*;
use vstd::std_specs::cmp::PartialEqSpec;

verus! {

/// Whether the `==` of `T` is known to decide exactly the mathematical
/// equality of values. Every contract about grouping equal values is
/// conditioned on it.
pub open spec fn eq_reflects_equality<T: PartialEq>() -> bool {
    &&& T::obeys_eq_spec()
    &&& forall|a: T, b: T| #[trigger] T::eq_spec(&a, &b) <==> a == b
}

/// Take a sequence of items and encode it according to its consecutive
/// runs. For example, `[1, 1, 1, 2, 2, 7]` becomes
/// `[(1, 3), (2, 2), (7, 1)]`, one pair per maximal run of equal values.
pub struct EncodeConsecutiveRuns<T> {
    items: Vec<T>,
    cursor: usize,
}

impl<T: PartialEq + Copy> EncodeConsecutiveRuns<T> {
    /// The encoder never walks past its items.
    pub closed spec fn valid(&self) -> bool {
        self.cursor <= self.items@.len()
    }

    /// The items not yet encoded, in order.
    pub closed spec fn spec_remaining(&self) -> Seq<T> {
        self.items@.skip(self.cursor as int)
    }

    /// Wrap a collection of items to encode it.
    pub fn new(items: Vec<T>) -> (r: Self)
        ensures
            r.valid(),
            r.spec_remaining() == items@,
    {
        EncodeConsecutiveRuns { items, cursor: 0 }
    }

    /// The next maximal run of equal items: its value and its length.
    /// `None` once every item has been encoded.
    pub fn next(&mut self) -> (r: Option<(T, u128)>)
        requires
            old(self).valid(),
            eq_reflects_equality::<T>(),
        ensures
            final(self).valid(),
            old(self).spec_remaining().len() == 0 ==> r is None && final(self).spec_remaining()
                == old(self).spec_remaining(),
            old(self).spec_remaining().len() > 0 ==> (r matches Some((value, count)) && {
                let rem = old(self).spec_remaining();
                &&& value == rem[0]
                &&& 1 <= count <= rem.len()
                &&& forall|k: int| 0 <= k < count ==> rem[k] == value
                &&& count < rem.len() ==> rem[count as int] != value
                &&& final(self).spec_remaining() == rem.skip(count as int)
            }),
    {
        if self.cursor >= self.items.len() {
            return None;
        }
        let ghost rem = old(self).spec_remaining();
        let start = self.cursor;
        let value = self.items[start];
        self.cursor = self.cursor + 1;
        while self.cursor < self.items.len() && self.items[self.cursor] == value
            invariant
                eq_reflects_equality::<T>(),
                start < self.cursor <= self.items@.len(),
                self.items@ == old(self).items@,
                start == old(self).cursor,
                value == self.items@[start as int],
                forall|k: int| start <= k < self.cursor ==> self.items@[k] == value,
            decreases self.items@.len() - self.cursor,
        {
            self.cursor = self.cursor + 1;
        }
        let count = (self.cursor - start) as u128;
        proof {
            assert(self.spec_remaining() =~= rem.skip(count as int));
            assert forall|k: int| 0 <= k < count implies rem[k] == value by {
                assert(rem[k] == self.items@[start + k]);
            }
            if count < rem.len() {
                assert(rem[count as int] == self.items@[self.cursor as int]);
            }
        }
        Some((value, count))
    }
}

} // verus!
