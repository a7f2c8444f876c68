use crate::block::{
    AlignedBitfield, AlignedBlock, BlockFetch, BlockStore, DefaultPerIndex,
    DefaultValue, IndexedBlock, SparseVec,
};
use crate::numerical_index::{lemma_block_round, lemma_multiple_below, NumericalIndex};
use vstd::prelude::*;

verus! {

/// A sparse boolean map over an astronomically large index domain: a
/// SparseVec of bit-packed blocks whose default policy always yields
/// `false`. Reading any never-touched index costs a binary search and
/// returns `false`; writing anywhere materializes one machine-word-sized
/// block covering that bit.
pub struct SparseBitset<T: NumericalIndex> where AlignedBitfield<T>: IndexedBlock {
    bitset: SparseVec<AlignedBitfield<T>, DefaultValue>,
}

impl<T> IndexedBlock for SparseBitset<T> where
    T: NumericalIndex,
    AlignedBitfield<T>: AlignedBlock + IndexedBlock<Index = T, Item = bool>,
 {
    type Index = T;

    type Item = bool;

    closed spec fn inv(&self) -> bool {
        self.bitset.well_formed()
    }

    open spec fn readable(&self, index: T) -> bool {
        true
    }

    open spec fn writable(&self, index: T) -> bool {
        true
    }

    closed spec fn spec_at(&self, index: T) -> bool {
        self.bitset.spec_at(index)
    }
}

impl<T> BlockFetch for SparseBitset<T> where
    T: NumericalIndex,
    AlignedBitfield<T>: AlignedBlock + BlockFetch + IndexedBlock<Index = T, Item = bool>,
 {
    fn fetch(&self, index: T) -> bool {
        self.bitset.fetch(index)
    }
}

impl<T> Default for SparseBitset<T> where
    T: NumericalIndex,
    AlignedBitfield<T>: AlignedBlock + IndexedBlock<Index = T, Item = bool>,
 {
    /// A fresh, empty bitset: every index reads as `false`.
    fn default() -> (r: Self)
        ensures
            r.inv(),
            forall|i: T| !(#[trigger] r.spec_at(i)),
    {
        SparseBitset { bitset: SparseVec::<AlignedBitfield<T>, DefaultValue>::default() }
    }
}

impl BlockStore for SparseBitset<usize> {
    fn store(&mut self, index: usize, item: bool) {
        proof {
            let b = usize::BITS as int;
            lemma_block_round(index as int, b);
            let s = ((index as int) / b) * b;
            if s < index as int + 1 && s % b == 0 {
                vstd::layout::unsigned_int_max_values();
                assert(usize::BITS == 32 || usize::BITS == 64);
                vstd::arithmetic::power2::lemma2_to64();
                vstd::arithmetic::power2::lemma2_to64_rest();
                lemma_multiple_below(s, b, usize::MAX as int + 1);
            }
        }
        let bs = &mut self.bitset;
        bs.store(index, item);
    }
}

impl BlockStore for SparseBitset<u64> {
    fn store(&mut self, index: u64, item: bool) {
        proof {
            lemma_block_round(index as int, 64);
            let s = ((index as int) / 64) * 64;
            let sv: u64 = s as u64;
            assert(sv % 64 == 0 ==> sv <= u64::MAX - (64 - 1)) by (bit_vector);
        }
        let bs = &mut self.bitset;
        bs.store(index, item);
    }
}

impl BlockStore for SparseBitset<u128> {
    fn store(&mut self, index: u128, item: bool) {
        proof {
            lemma_block_round(index as int, 128);
            let s = ((index as int) / 128) * 128;
            let sv: u128 = s as u128;
            assert(sv % 128 == 0 ==> sv <= u128::MAX - (128 - 1)) by (bit_vector);
        }
        let bs = &mut self.bitset;
        bs.store(index, item);
    }
}

} // verus!
