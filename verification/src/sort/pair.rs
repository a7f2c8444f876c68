use vstd::prelude::*;

verus! {

/// A pair of half-vectors addressed as one contiguous sequence: index `i`
/// falls in the first half while `i` is below its length, and in the
/// second half after that.
pub struct Pair<T> {
    a: Vec<T>,
    b: Vec<T>,
}

impl<T> Pair<T> {
    /// The items of the first half, in order.
    pub closed spec fn spec_first(&self) -> Seq<T> {
        self.a@
    }

    /// The items of the second half, in order.
    pub closed spec fn spec_second(&self) -> Seq<T> {
        self.b@
    }

    /// The items of the combined pair: first half, then second half.
    pub open spec fn spec_items(&self) -> Seq<T> {
        self.spec_first() + self.spec_second()
    }

    /// Construct a new pair with the given left and right halves.
    pub fn new(a: Vec<T>, b: Vec<T>) -> (r: Self)
        ensures
            r.spec_first() == a@,
            r.spec_second() == b@,
    {
        Pair { a, b }
    }

    /// Replace the left half of the pair.
    pub fn first(self, a: Vec<T>) -> (r: Self)
        ensures
            r.spec_first() == a@,
            r.spec_second() == self.spec_second(),
    {
        Pair { a, b: self.b }
    }

    /// Replace the right half of the pair.
    pub fn second(self, b: Vec<T>) -> (r: Self)
        ensures
            r.spec_first() == self.spec_first(),
            r.spec_second() == b@,
    {
        Pair { a: self.a, b }
    }

    /// The length of the combined pair.
    pub fn len(&self) -> (r: usize)
        requires
            self.spec_items().len() <= usize::MAX,
        ensures
            r == self.spec_items().len(),
    {
        self.a.len() + self.b.len()
    }

    /// Given an index into the combined pair, the half it falls within (0
    /// for the left, 1 for the right) and the corresponding index within
    /// that half.
    fn index_of(&self, i: usize) -> (r: (usize, usize))
        requires
            i < self.spec_items().len(),
        ensures
            i < self.spec_first().len() ==> r == (0usize, i),
            i >= self.spec_first().len() ==> r == (1usize, (i - self.spec_first().len()) as usize),
    {
        if i < self.a.len() {
            (0, i)
        } else {
            (1, i - self.a.len())
        }
    }

    /// The left (0) or right (1) half, as a slice.
    fn get_slice(&self, k: usize) -> (r: &[T])
        requires
            k <= 1,
        ensures
            k == 0 ==> r@ == self.spec_first(),
            k == 1 ==> r@ == self.spec_second(),
    {
        if k == 0 {
            self.a.as_slice()
        } else {
            self.b.as_slice()
        }
    }

    /// Get a reference to the element at the given index into the combined
    /// pair.
    pub fn get(&self, i: usize) -> (r: &T)
        requires
            i < self.spec_items().len(),
        ensures
            *r == self.spec_items()[i as int],
    {
        let (k, within) = self.index_of(i);
        let half = self.get_slice(k);
        &half[within]
    }

    /// Get a mutable reference to the element at the given index into the
    /// combined pair.
    pub fn get_mut(&mut self, i: usize) -> (r: &mut T)
        requires
            i < old(self).spec_items().len(),
        ensures
            *r == old(self).spec_items()[i as int],
            final(self).spec_first().len() == old(self).spec_first().len(),
            final(self).spec_items() =~= old(self).spec_items().update(i as int, *final(r)),
    {
        let (k, within) = self.index_of(i);
        if k == 0 {
            &mut self.a[within]
        } else {
            &mut self.b[within]
        }
    }

    /// The elements of the pair, first half then second, as one vector.
    pub fn iter(&self) -> (r: Vec<T>) where T: Copy
        ensures
            r@ == self.spec_items(),
    {
        let mut r: Vec<T> = Vec::new();
        let mut k: usize = 0;
        while k < self.a.len()
            invariant
                k <= self.a@.len(),
                r@ == self.a@.take(k as int),
            decreases self.a@.len() - k,
        {
            r.push(self.a[k]);
            proof {
                assert(r@ =~= self.a@.take(k + 1));
            }
            k = k + 1;
        }
        proof {
            assert(r@ =~= self.a@);
        }
        let mut k: usize = 0;
        while k < self.b.len()
            invariant
                k <= self.b@.len(),
                r@ == self.a@ + self.b@.take(k as int),
            decreases self.b@.len() - k,
        {
            r.push(self.b[k]);
            proof {
                assert(r@ =~= self.a@ + self.b@.take(k + 1));
            }
            k = k + 1;
        }
        proof {
            assert(r@ =~= self.spec_items());
        }
        r
    }

    /// Exchange the elements at the two given positions of the combined
    /// pair.
    pub fn swap(&mut self, i: usize, j: usize)
        requires
            i < old(self).spec_items().len(),
            j < old(self).spec_items().len(),
        ensures
            final(self).spec_first().len() == old(self).spec_first().len(),
            final(self).spec_items() == old(self).spec_items().update(
                i as int,
                old(self).spec_items()[j as int],
            ).update(j as int, old(self).spec_items()[i as int]),
    {
        let (ik, iw) = self.index_of(i);
        let (jk, jw) = self.index_of(j);
        if ik == 0 && jk == 0 {
            vec_swap(&mut self.a, iw, jw);
        } else if ik == 1 && jk == 1 {
            vec_swap(&mut self.b, iw, jw);
        } else if ik == 0 {
            core::mem::swap(&mut self.a[iw], &mut self.b[jw]);
        } else {
            core::mem::swap(&mut self.a[jw], &mut self.b[iw]);
        }
        proof {
            assert(self.spec_items() =~= old(self).spec_items().update(
                i as int,
                old(self).spec_items()[j as int],
            ).update(j as int, old(self).spec_items()[i as int]));
        }
    }
}

impl<T> Default for Pair<T> {
    /// A pair of two empty halves.
    fn default() -> (r: Self)
        ensures
            r.spec_first().len() == 0,
            r.spec_second().len() == 0,
    {
        Pair { a: Vec::new(), b: Vec::new() }
    }
}

/// Exchange the elements of one vector at the two given positions.
fn vec_swap<T>(v: &mut Vec<T>, x: usize, y: usize)
    requires
        x < old(v)@.len(),
        y < old(v)@.len(),
    ensures
        final(v)@ == old(v)@.update(x as int, old(v)@[y as int]).update(
            y as int,
            old(v)@[x as int],
        ),
{
    if x == y {
        proof {
            assert(v@ =~= old(v)@.update(x as int, old(v)@[y as int]).update(
                y as int,
                old(v)@[x as int],
            ));
        }
        return ;
    }
    let (lo, hi) = if x < y {
        (x, y)
    } else {
        (y, x)
    };
    let vh = v.remove(hi);
    let vl = v.remove(lo);
    v.insert(lo, vh);
    v.insert(hi, vl);
    proof {
        assert(v@ =~= old(v)@.update(x as int, old(v)@[y as int]).update(
            y as int,
            old(v)@[x as int],
        ));
    }
}

} // verus!
