use super::aligned_block::{
    AlignedBlock, AlignedBlockFromDefault, AlignedBlockFromIterator, BlockClone, BlockFetch,
    BlockStore, DefaultPerIndex, IndexedBlock, StorageError,
};
use vstd::prelude::*;

verus! {

/// A vector as an aligned block: `N` items whose first element sits at an
/// absolute position that is a multiple of `N`.
pub struct AlignedVec<T, const N: usize> {
    position: usize,
    vec: Vec<T>,
}

impl<T, const N: usize> AlignedVec<T, N> {
    /// The items held by this block, in slot order.
    pub closed spec fn contents(&self) -> Seq<T> {
        self.vec@
    }

    /// Construct a new AlignedVec, starting at the given position.
    /// The position must be aligned with (divisible by) `N`, and the length
    /// of the vector must be exactly `N`.
    pub fn new_from(position: usize, vec: Vec<T>) -> (r: Result<Self, StorageError>)
        ensures
            r matches Ok(b) ==> {
                &&& b.inv()
                &&& b.spec_position() == position
                &&& b.contents() == vec@
                &&& forall|i: usize| #[trigger] b.readable(i) <==> position <= i < position + N
                &&& forall|i: usize|
                    b.readable(i) ==> #[trigger] b.spec_at(i) == vec@[i - position]
            },
            r is Ok <==> N > 0 && vec@.len() == N && position as nat % (N as nat) == 0,
            r == Result::<Self, StorageError>::Err(StorageError::WrongLength) <==> N > 0
                && vec@.len() != N,
            r == Result::<Self, StorageError>::Err(StorageError::NotAligned) <==> N == 0 || (
            vec@.len() == N && position as nat % (N as nat) != 0),
    {
        if N == 0 {
            Err(StorageError::NotAligned)
        } else if vec.len() != N {
            Err(StorageError::WrongLength)
        } else if position % N != 0 {
            Err(StorageError::NotAligned)
        } else {
            Ok(AlignedVec { position, vec })
        }
    }

    /// Turn this AlignedVec back into the original Vec.
    pub fn into_vec(self) -> (r: Vec<T>)
        ensures
            r@ == self.contents(),
    {
        self.vec
    }

    /// The slot within this block that serves the absolute index `index`.
    fn index_of(&self, index: usize) -> (r: usize)
        requires
            self.inv(),
            self.readable(index),
        ensures
            r == index - self.spec_position(),
            r < N,
    {
        index - self.position
    }
}

impl<T, const N: usize> IndexedBlock for AlignedVec<T, N> {
    type Index = usize;

    type Item = T;

    closed spec fn inv(&self) -> bool {
        &&& N > 0
        &&& self.position as nat % (N as nat) == 0
        &&& self.vec@.len() == N
    }

    closed spec fn readable(&self, index: usize) -> bool {
        self.position <= index < self.position + N
    }

    closed spec fn spec_at(&self, index: usize) -> T {
        self.vec@[index - self.position]
    }

    open spec fn writable(&self, index: usize) -> bool {
        self.readable(index)
    }
}

impl<T, const N: usize> AlignedBlock for AlignedVec<T, N> {
    open spec fn spec_alignment() -> nat {
        N as nat
    }

    closed spec fn spec_position(&self) -> nat {
        self.position as nat
    }

    proof fn lemma_wf(&self) {
    }

    fn alignment() -> usize {
        N
    }

    fn position(&self) -> usize {
        self.position
    }

    fn is_well_formed(&self) -> bool {
        N != 0 && self.position % N == 0 && self.vec.len() == N
    }
}

impl<T: Copy, const N: usize> BlockFetch for AlignedVec<T, N> {
    fn fetch(&self, index: usize) -> T {
        let slot = self.index_of(index);
        self.vec[slot]
    }
}

impl<T: Copy, const N: usize> BlockStore for AlignedVec<T, N> {
    fn store(&mut self, index: usize, item: T) {
        let slot = self.index_of(index);
        self.vec[slot] = item;
    }
}

impl<T: Copy, const N: usize> BlockClone for AlignedVec<T, N> {
    fn clone_block(&self) -> (r: Self) {
        let mut copied: Vec<T> = Vec::new();
        let mut k: usize = 0;
        while k < N
            invariant
                self.inv(),
                k <= N,
                copied@ == self.vec@.take(k as int),
            decreases N - k,
        {
            copied.push(self.vec[k]);
            proof {
                assert(copied@ =~= self.vec@.take(k + 1));
            }
            k = k + 1;
        }
        proof {
            assert(copied@ =~= self.vec@);
        }
        AlignedVec { position: self.position, vec: copied }
    }
}

impl<T, const N: usize> AlignedBlockFromDefault for AlignedVec<T, N> {
    fn default_per_index<D: DefaultPerIndex<usize, T>>(position: usize, value: &D) -> (r: Self) {
        let mut vec: Vec<T> = Vec::new();
        let mut k: usize = 0;
        while k < N
            invariant
                value.policy_wf(),
                position as nat % (N as nat) == 0,
                position + N <= usize::MAX as nat + 1,
                k <= N,
                vec@.len() == k,
                forall|j: int|
                    0 <= j < k ==> vec@[j] == value.spec_default_at((position + j) as usize),
            decreases N - k,
        {
            vec.push(value.default_at_index(position + k));
            k = k + 1;
        }
        AlignedVec { position, vec }
    }
}

impl<T, const N: usize> AlignedBlockFromIterator for AlignedVec<T, N> {
    fn from_iterator(position: usize, items: &mut Vec<T>) -> (r: Result<Self, StorageError>) {
        if items.len() < N {
            Err(StorageError::UnderfullGenerator)
        } else {
            let mut vec: Vec<T> = Vec::new();
            let mut k: usize = 0;
            while k < N
                invariant
                    N <= old(items)@.len(),
                    k <= N,
                    vec@ == old(items)@.take(k as int),
                    items@ == old(items)@.skip(k as int),
                decreases N - k,
            {
                let item = items.remove(0);
                proof {
                    assert(items@ =~= old(items)@.skip(k + 1));
                    assert(vec@.push(item) =~= old(items)@.take(k + 1));
                }
                vec.push(item);
                k = k + 1;
            }
            Ok(AlignedVec { position, vec })
        }
    }
}

} // verus!
