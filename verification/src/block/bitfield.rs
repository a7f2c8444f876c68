use super::aligned_block::{
    AlignedBlock, AlignedBlockFromDefault, AlignedBlockFromIterator, BlockClone, BlockFetch,
    BlockStore, DefaultPerIndex, IndexedBlock, StorageError,
};
use vstd::prelude::*;

verus! {

/// An aligned block of booleans, packed into a single machine word: bit
/// `k`, counted from the block's position, is the boolean at absolute
/// index `position + k`. The alignment is the bit width of the index type,
/// so the position doubles as the word's coverage and the whole block
/// costs one word of storage.
pub struct AlignedBitfield<T> {
    position: T,
    bits: T,
}

/// Bit `k` of the word, as a boolean.
pub open spec fn spec_bit_usize(word: usize, k: usize) -> bool {
    (word >> k) & 1 == 1
}

proof fn lemma_set_bit_usize(w: usize, off: usize, k: usize)
    requires
        off < usize::BITS,
        k < usize::BITS,
    ensures
        spec_bit_usize(w | (1usize << off), k) == if k == off {
            true
        } else {
            spec_bit_usize(w, k)
        },
{
    assert(off < usize::BITS && k < usize::BITS ==> ((w | (1usize << off)) >> k) & 1 == (if k == off {
        1usize
    } else {
        (w >> k) & 1
    })) by (bit_vector);
}

proof fn lemma_clear_bit_usize(w: usize, off: usize, k: usize)
    requires
        off < usize::BITS,
        k < usize::BITS,
    ensures
        spec_bit_usize(w & !(1usize << off), k) == if k == off {
            false
        } else {
            spec_bit_usize(w, k)
        },
{
    assert(off < usize::BITS && k < usize::BITS ==> ((w & !(1usize << off)) >> k) & 1 == (if k == off {
        0usize
    } else {
        (w >> k) & 1
    })) by (bit_vector);
}

proof fn lemma_zero_bit_usize(k: usize)
    requires
        k < usize::BITS,
    ensures
        !spec_bit_usize(0, k),
{
    assert(k < usize::BITS ==> (0usize >> k) & 1 == 0usize) by (bit_vector);
}

impl AlignedBitfield<usize> {
    /// Construct a bitfield block directly from its packed word; the
    /// position must be a multiple of the alignment.
    pub fn from_bits(position: usize, bits: usize) -> (r: Result<Self, StorageError>)
        ensures
            r is Ok <==> position as nat % usize::BITS as nat == 0,
            r matches Ok(b) ==> {
                &&& b.inv()
                &&& b.spec_position() == position
                &&& forall|i: usize| #[trigger] b.readable(i) <==> position <= i < position + usize::BITS
                &&& forall|i: usize|
                    b.readable(i) ==> #[trigger] b.spec_at(i) == spec_bit_usize(
                        bits,
                        (i - position) as usize,
                    )
            },
            r is Err ==> r == Result::<Self, StorageError>::Err(StorageError::NotAligned),
    {
        if position % (usize::BITS as usize) == 0 {
            Ok(AlignedBitfield { position, bits })
        } else {
            Err(StorageError::NotAligned)
        }
    }
}

impl IndexedBlock for AlignedBitfield<usize> {
    type Index = usize;

    type Item = bool;

    closed spec fn inv(&self) -> bool {
        self.position as nat % usize::BITS as nat == 0
    }

    closed spec fn readable(&self, index: usize) -> bool {
        self.position <= index < self.position + usize::BITS
    }

    closed spec fn writable(&self, index: usize) -> bool {
        self.readable(index)
    }

    closed spec fn spec_at(&self, index: usize) -> bool {
        spec_bit_usize(self.bits, (index - self.position) as usize)
    }
}

impl AlignedBlock for AlignedBitfield<usize> {
    open spec fn spec_alignment() -> nat {
        usize::BITS as nat
    }

    closed spec fn spec_position(&self) -> nat {
        self.position as nat
    }

    proof fn lemma_wf(&self) {
    }

    fn alignment() -> usize {
        (usize::BITS as usize)
    }

    fn position(&self) -> usize {
        self.position
    }

    fn is_well_formed(&self) -> bool {
        self.position % (usize::BITS as usize) == 0
    }
}

impl BlockFetch for AlignedBitfield<usize> {
    fn fetch(&self, index: usize) -> bool {
        let off = index - self.position;
        (self.bits >> off) & 0x01 == 1
    }
}

impl BlockStore for AlignedBitfield<usize> {
    fn store(&mut self, index: usize, item: bool) {
        let off = index - self.position;
        let ghost old_bits = self.bits;
        if item {
            self.bits = self.bits | (0x01usize << off);
        } else {
            self.bits = self.bits & !(0x01usize << off);
        }
        proof {
            assert forall|j: usize| old(self).readable(j) && j != index implies self.spec_at(j)
                == old(self).spec_at(j) by {
                let k = (j - self.position) as usize;
                if item {
                    lemma_set_bit_usize(old_bits, off, k);
                } else {
                    lemma_clear_bit_usize(old_bits, off, k);
                }
            }
            if item {
                lemma_set_bit_usize(old_bits, off, off);
            } else {
                lemma_clear_bit_usize(old_bits, off, off);
            }
        }
    }
}

impl BlockClone for AlignedBitfield<usize> {
    fn clone_block(&self) -> (r: Self) {
        AlignedBitfield { position: self.position, bits: self.bits }
    }
}

impl AlignedBlockFromDefault for AlignedBitfield<usize> {
    fn default_per_index<D: DefaultPerIndex<usize, bool>>(position: usize, value: &D) -> (r: Self) {
        let mut bits: usize = 0;
        let mut k: usize = 0;
        proof {
            assert forall|j: usize| 0 <= j < usize::BITS implies !spec_bit_usize(0, j) by {
                lemma_zero_bit_usize(j);
            }
        }
        while k < (usize::BITS as usize)
            invariant
                value.policy_wf(),
                position as nat % usize::BITS as nat == 0,
                position as nat + usize::BITS as nat <= usize::MAX as nat + 1,
                k <= usize::BITS,
                forall|j: usize|
                    j < k ==> #[trigger] spec_bit_usize(bits, j) == value.spec_default_at(
                        (position + j) as usize,
                    ),
                forall|j: usize| k <= j < usize::BITS ==> !#[trigger] spec_bit_usize(bits, j),
            decreases usize::BITS - k,
        {
            if value.default_at_index(position + k) {
                let ghost old_bits = bits;
                bits = bits | (0x01usize << k);
                proof {
                    assert forall|j: usize| j < usize::BITS implies #[trigger] spec_bit_usize(bits, j)
                        == if j == k {
                        true
                    } else {
                        spec_bit_usize(old_bits, j)
                    } by {
                        lemma_set_bit_usize(old_bits, k, j);
                    }
                }
            }
            k = k + 1;
        }
        AlignedBitfield { position, bits }
    }
}

impl AlignedBlockFromIterator for AlignedBitfield<usize> {
    fn from_iterator(position: usize, items: &mut Vec<bool>) -> (r: Result<Self, StorageError>) {
        if items.len() < (usize::BITS as usize) {
            return Err(StorageError::UnderfullGenerator);
        }
        let mut bits: usize = 0;
        let mut k: usize = 0;
        proof {
            assert forall|j: usize| 0 <= j < usize::BITS implies !spec_bit_usize(0, j) by {
                lemma_zero_bit_usize(j);
            }
        }
        while k < (usize::BITS as usize)
            invariant
                old(items)@.len() >= usize::BITS as nat,
                k <= (usize::BITS as usize),
                items@ == old(items)@.skip(k as int),
                forall|j: usize|
                    j < k ==> #[trigger] spec_bit_usize(bits, j) == old(items)@[j as int],
                forall|j: usize| k <= j < usize::BITS ==> !#[trigger] spec_bit_usize(bits, j),
            decreases (usize::BITS as usize) - k,
        {
            let bitval = items.remove(0);
            proof {
                assert(items@ =~= old(items)@.skip(k + 1));
            }
            if bitval {
                let ghost old_bits = bits;
                bits = bits | (0x01usize << (k as usize));
                proof {
                    assert forall|j: usize| j < usize::BITS implies #[trigger] spec_bit_usize(bits, j)
                        == if j == k as usize {
                        true
                    } else {
                        spec_bit_usize(old_bits, j)
                    } by {
                        lemma_set_bit_usize(old_bits, k as usize, j);
                    }
                }
            }
            k = k + 1;
        }
        Ok(AlignedBitfield { position, bits })
    }
}

/// Bit `k` of the word, as a boolean.
pub open spec fn spec_bit_u64(word: u64, k: u64) -> bool {
    (word >> k) & 1 == 1
}

proof fn lemma_set_bit_u64(w: u64, off: u64, k: u64)
    requires
        off < 64,
        k < 64,
    ensures
        spec_bit_u64(w | (1u64 << off), k) == if k == off {
            true
        } else {
            spec_bit_u64(w, k)
        },
{
    assert(off < 64 && k < 64 ==> ((w | (1u64 << off)) >> k) & 1 == (if k == off {
        1u64
    } else {
        (w >> k) & 1
    })) by (bit_vector);
}

proof fn lemma_clear_bit_u64(w: u64, off: u64, k: u64)
    requires
        off < 64,
        k < 64,
    ensures
        spec_bit_u64(w & !(1u64 << off), k) == if k == off {
            false
        } else {
            spec_bit_u64(w, k)
        },
{
    assert(off < 64 && k < 64 ==> ((w & !(1u64 << off)) >> k) & 1 == (if k == off {
        0u64
    } else {
        (w >> k) & 1
    })) by (bit_vector);
}

proof fn lemma_zero_bit_u64(k: u64)
    requires
        k < 64,
    ensures
        !spec_bit_u64(0, k),
{
    assert(k < 64 ==> (0u64 >> k) & 1 == 0u64) by (bit_vector);
}

impl AlignedBitfield<u64> {
    /// Construct a bitfield block directly from its packed word; the
    /// position must be a multiple of the alignment.
    pub fn from_bits(position: u64, bits: u64) -> (r: Result<Self, StorageError>)
        ensures
            r is Ok <==> position as nat % 64 == 0,
            r matches Ok(b) ==> {
                &&& b.inv()
                &&& b.spec_position() == position
                &&& forall|i: u64| #[trigger] b.readable(i) <==> position <= i < position + 64
                &&& forall|i: u64|
                    b.readable(i) ==> #[trigger] b.spec_at(i) == spec_bit_u64(
                        bits,
                        (i - position) as u64,
                    )
            },
            r is Err ==> r == Result::<Self, StorageError>::Err(StorageError::NotAligned),
    {
        if position % 64 == 0 {
            Ok(AlignedBitfield { position, bits })
        } else {
            Err(StorageError::NotAligned)
        }
    }
}

impl IndexedBlock for AlignedBitfield<u64> {
    type Index = u64;

    type Item = bool;

    closed spec fn inv(&self) -> bool {
        self.position as nat % 64 == 0
    }

    closed spec fn readable(&self, index: u64) -> bool {
        self.position <= index < self.position + 64
    }

    closed spec fn writable(&self, index: u64) -> bool {
        self.readable(index)
    }

    closed spec fn spec_at(&self, index: u64) -> bool {
        spec_bit_u64(self.bits, (index - self.position) as u64)
    }
}

impl AlignedBlock for AlignedBitfield<u64> {
    open spec fn spec_alignment() -> nat {
        64
    }

    closed spec fn spec_position(&self) -> nat {
        self.position as nat
    }

    proof fn lemma_wf(&self) {
    }

    fn alignment() -> u64 {
        64
    }

    fn position(&self) -> u64 {
        self.position
    }

    fn is_well_formed(&self) -> bool {
        self.position % 64 == 0
    }
}

impl BlockFetch for AlignedBitfield<u64> {
    fn fetch(&self, index: u64) -> bool {
        let off = index - self.position;
        (self.bits >> off) & 0x01 == 1
    }
}

impl BlockStore for AlignedBitfield<u64> {
    fn store(&mut self, index: u64, item: bool) {
        let off = index - self.position;
        let ghost old_bits = self.bits;
        if item {
            self.bits = self.bits | (0x01u64 << off);
        } else {
            self.bits = self.bits & !(0x01u64 << off);
        }
        proof {
            assert forall|j: u64| old(self).readable(j) && j != index implies self.spec_at(j)
                == old(self).spec_at(j) by {
                let k = (j - self.position) as u64;
                if item {
                    lemma_set_bit_u64(old_bits, off, k);
                } else {
                    lemma_clear_bit_u64(old_bits, off, k);
                }
            }
            if item {
                lemma_set_bit_u64(old_bits, off, off);
            } else {
                lemma_clear_bit_u64(old_bits, off, off);
            }
        }
    }
}

impl BlockClone for AlignedBitfield<u64> {
    fn clone_block(&self) -> (r: Self) {
        AlignedBitfield { position: self.position, bits: self.bits }
    }
}

impl AlignedBlockFromDefault for AlignedBitfield<u64> {
    fn default_per_index<D: DefaultPerIndex<u64, bool>>(position: u64, value: &D) -> (r: Self) {
        let mut bits: u64 = 0;
        let mut k: u64 = 0;
        proof {
            assert forall|j: u64| 0 <= j < 64 implies !spec_bit_u64(0, j) by {
                lemma_zero_bit_u64(j);
            }
        }
        while k < 64
            invariant
                value.policy_wf(),
                position as nat % 64 == 0,
                position as nat + 64 <= u64::MAX as nat + 1,
                k <= 64,
                forall|j: u64|
                    j < k ==> #[trigger] spec_bit_u64(bits, j) == value.spec_default_at(
                        (position + j) as u64,
                    ),
                forall|j: u64| k <= j < 64 ==> !#[trigger] spec_bit_u64(bits, j),
            decreases 64 - k,
        {
            if value.default_at_index(position + k) {
                let ghost old_bits = bits;
                bits = bits | (0x01u64 << k);
                proof {
                    assert forall|j: u64| j < 64 implies #[trigger] spec_bit_u64(bits, j)
                        == if j == k {
                        true
                    } else {
                        spec_bit_u64(old_bits, j)
                    } by {
                        lemma_set_bit_u64(old_bits, k, j);
                    }
                }
            }
            k = k + 1;
        }
        AlignedBitfield { position, bits }
    }
}

impl AlignedBlockFromIterator for AlignedBitfield<u64> {
    fn from_iterator(position: u64, items: &mut Vec<bool>) -> (r: Result<Self, StorageError>) {
        if items.len() < 64 {
            return Err(StorageError::UnderfullGenerator);
        }
        let mut bits: u64 = 0;
        let mut k: usize = 0;
        proof {
            assert forall|j: u64| 0 <= j < 64 implies !spec_bit_u64(0, j) by {
                lemma_zero_bit_u64(j);
            }
        }
        while k < 64
            invariant
                old(items)@.len() >= 64,
                k <= 64,
                items@ == old(items)@.skip(k as int),
                forall|j: u64|
                    j < k ==> #[trigger] spec_bit_u64(bits, j) == old(items)@[j as int],
                forall|j: u64| k <= j < 64 ==> !#[trigger] spec_bit_u64(bits, j),
            decreases 64 - k,
        {
            let bitval = items.remove(0);
            proof {
                assert(items@ =~= old(items)@.skip(k + 1));
            }
            if bitval {
                let ghost old_bits = bits;
                bits = bits | (0x01u64 << (k as u64));
                proof {
                    assert forall|j: u64| j < 64 implies #[trigger] spec_bit_u64(bits, j)
                        == if j == k as u64 {
                        true
                    } else {
                        spec_bit_u64(old_bits, j)
                    } by {
                        lemma_set_bit_u64(old_bits, k as u64, j);
                    }
                }
            }
            k = k + 1;
        }
        Ok(AlignedBitfield { position, bits })
    }
}

/// Bit `k` of the word, as a boolean.
pub open spec fn spec_bit_u128(word: u128, k: u128) -> bool {
    (word >> k) & 1 == 1
}

proof fn lemma_set_bit_u128(w: u128, off: u128, k: u128)
    requires
        off < 128,
        k < 128,
    ensures
        spec_bit_u128(w | (1u128 << off), k) == if k == off {
            true
        } else {
            spec_bit_u128(w, k)
        },
{
    assert(off < 128 && k < 128 ==> ((w | (1u128 << off)) >> k) & 1 == (if k == off {
        1u128
    } else {
        (w >> k) & 1
    })) by (bit_vector);
}

proof fn lemma_clear_bit_u128(w: u128, off: u128, k: u128)
    requires
        off < 128,
        k < 128,
    ensures
        spec_bit_u128(w & !(1u128 << off), k) == if k == off {
            false
        } else {
            spec_bit_u128(w, k)
        },
{
    assert(off < 128 && k < 128 ==> ((w & !(1u128 << off)) >> k) & 1 == (if k == off {
        0u128
    } else {
        (w >> k) & 1
    })) by (bit_vector);
}

proof fn lemma_zero_bit_u128(k: u128)
    requires
        k < 128,
    ensures
        !spec_bit_u128(0, k),
{
    assert(k < 128 ==> (0u128 >> k) & 1 == 0u128) by (bit_vector);
}

impl AlignedBitfield<u128> {
    /// Construct a bitfield block directly from its packed word; the
    /// position must be a multiple of the alignment.
    pub fn from_bits(position: u128, bits: u128) -> (r: Result<Self, StorageError>)
        ensures
            r is Ok <==> position as nat % 128 == 0,
            r matches Ok(b) ==> {
                &&& b.inv()
                &&& b.spec_position() == position
                &&& forall|i: u128| #[trigger] b.readable(i) <==> position <= i < position + 128
                &&& forall|i: u128|
                    b.readable(i) ==> #[trigger] b.spec_at(i) == spec_bit_u128(
                        bits,
                        (i - position) as u128,
                    )
            },
            r is Err ==> r == Result::<Self, StorageError>::Err(StorageError::NotAligned),
    {
        if position % 128 == 0 {
            Ok(AlignedBitfield { position, bits })
        } else {
            Err(StorageError::NotAligned)
        }
    }
}

impl IndexedBlock for AlignedBitfield<u128> {
    type Index = u128;

    type Item = bool;

    closed spec fn inv(&self) -> bool {
        self.position as nat % 128 == 0
    }

    closed spec fn readable(&self, index: u128) -> bool {
        self.position <= index < self.position + 128
    }

    closed spec fn writable(&self, index: u128) -> bool {
        self.readable(index)
    }

    closed spec fn spec_at(&self, index: u128) -> bool {
        spec_bit_u128(self.bits, (index - self.position) as u128)
    }
}

impl AlignedBlock for AlignedBitfield<u128> {
    open spec fn spec_alignment() -> nat {
        128
    }

    closed spec fn spec_position(&self) -> nat {
        self.position as nat
    }

    proof fn lemma_wf(&self) {
    }

    fn alignment() -> u128 {
        128
    }

    fn position(&self) -> u128 {
        self.position
    }

    fn is_well_formed(&self) -> bool {
        self.position % 128 == 0
    }
}

impl BlockFetch for AlignedBitfield<u128> {
    fn fetch(&self, index: u128) -> bool {
        let off = index - self.position;
        (self.bits >> off) & 0x01 == 1
    }
}

impl BlockStore for AlignedBitfield<u128> {
    fn store(&mut self, index: u128, item: bool) {
        let off = index - self.position;
        let ghost old_bits = self.bits;
        if item {
            self.bits = self.bits | (0x01u128 << off);
        } else {
            self.bits = self.bits & !(0x01u128 << off);
        }
        proof {
            assert forall|j: u128| old(self).readable(j) && j != index implies self.spec_at(j)
                == old(self).spec_at(j) by {
                let k = (j - self.position) as u128;
                if item {
                    lemma_set_bit_u128(old_bits, off, k);
                } else {
                    lemma_clear_bit_u128(old_bits, off, k);
                }
            }
            if item {
                lemma_set_bit_u128(old_bits, off, off);
            } else {
                lemma_clear_bit_u128(old_bits, off, off);
            }
        }
    }
}

impl BlockClone for AlignedBitfield<u128> {
    fn clone_block(&self) -> (r: Self) {
        AlignedBitfield { position: self.position, bits: self.bits }
    }
}

impl AlignedBlockFromDefault for AlignedBitfield<u128> {
    fn default_per_index<D: DefaultPerIndex<u128, bool>>(position: u128, value: &D) -> (r: Self) {
        let mut bits: u128 = 0;
        let mut k: u128 = 0;
        proof {
            assert forall|j: u128| 0 <= j < 128 implies !spec_bit_u128(0, j) by {
                lemma_zero_bit_u128(j);
            }
        }
        while k < 128
            invariant
                value.policy_wf(),
                position as nat % 128 == 0,
                position as nat + 128 <= u128::MAX as nat + 1,
                k <= 128,
                forall|j: u128|
                    j < k ==> #[trigger] spec_bit_u128(bits, j) == value.spec_default_at(
                        (position + j) as u128,
                    ),
                forall|j: u128| k <= j < 128 ==> !#[trigger] spec_bit_u128(bits, j),
            decreases 128 - k,
        {
            if value.default_at_index(position + k) {
                let ghost old_bits = bits;
                bits = bits | (0x01u128 << k);
                proof {
                    assert forall|j: u128| j < 128 implies #[trigger] spec_bit_u128(bits, j)
                        == if j == k {
                        true
                    } else {
                        spec_bit_u128(old_bits, j)
                    } by {
                        lemma_set_bit_u128(old_bits, k, j);
                    }
                }
            }
            k = k + 1;
        }
        AlignedBitfield { position, bits }
    }
}

impl AlignedBlockFromIterator for AlignedBitfield<u128> {
    fn from_iterator(position: u128, items: &mut Vec<bool>) -> (r: Result<Self, StorageError>) {
        if items.len() < 128 {
            return Err(StorageError::UnderfullGenerator);
        }
        let mut bits: u128 = 0;
        let mut k: usize = 0;
        proof {
            assert forall|j: u128| 0 <= j < 128 implies !spec_bit_u128(0, j) by {
                lemma_zero_bit_u128(j);
            }
        }
        while k < 128
            invariant
                old(items)@.len() >= 128,
                k <= 128,
                items@ == old(items)@.skip(k as int),
                forall|j: u128|
                    j < k ==> #[trigger] spec_bit_u128(bits, j) == old(items)@[j as int],
                forall|j: u128| k <= j < 128 ==> !#[trigger] spec_bit_u128(bits, j),
            decreases 128 - k,
        {
            let bitval = items.remove(0);
            proof {
                assert(items@ =~= old(items)@.skip(k + 1));
            }
            if bitval {
                let ghost old_bits = bits;
                bits = bits | (0x01u128 << (k as u128));
                proof {
                    assert forall|j: u128| j < 128 implies #[trigger] spec_bit_u128(bits, j)
                        == if j == k as u128 {
                        true
                    } else {
                        spec_bit_u128(old_bits, j)
                    } by {
                        lemma_set_bit_u128(old_bits, k as u128, j);
                    }
                }
            }
            k = k + 1;
        }
        Ok(AlignedBitfield { position, bits })
    }
}

} // verus!
