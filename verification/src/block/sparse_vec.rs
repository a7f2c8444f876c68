use super::aligned_block::{
    lemma_same_span_same_position, AlignedBlock, AlignedBlockFromDefault, BlockFetch, BlockStore,
    DefaultPerIndex, IndexedBlock, StorageError,
};
use crate::numerical_index::{lemma_block_round, NumericalIndex};
use vstd::arithmetic::div_mod::{lemma_fundamental_div_mod, lemma_fundamental_div_mod_converse};
use vstd::prelude::*;

verus! {

/// The first index of the block that would hold `i`: `i` rounded down to a
/// multiple of the alignment of `B`.
pub open spec fn spec_block_start<B: AlignedBlock>(i: B::Index) -> nat {
    (i.as_nat() / B::spec_alignment()) * B::spec_alignment()
}

/// Whether the block `blk` spans the absolute index `i`.
pub open spec fn block_covers<B: AlignedBlock>(blk: B, i: B::Index) -> bool {
    blk.spec_position() <= i.as_nat() < blk.spec_position() + B::spec_alignment()
}

/// Whether some block of `blocks` spans the absolute index `i`.
pub open spec fn has_covering<B: AlignedBlock>(blocks: Seq<B>, i: B::Index) -> bool {
    exists|b: int| 0 <= b < blocks.len() && #[trigger] block_covers(blocks[b], i)
}

/// The offset within `blocks` of a block that spans `i`; meaningful when
/// `has_covering` holds, in which case it is unique.
pub open spec fn covering_index<B: AlignedBlock>(blocks: Seq<B>, i: B::Index) -> int {
    choose|b: int| 0 <= b < blocks.len() && #[trigger] block_covers(blocks[b], i)
}

/// A well-formed block that spans `i` sits exactly at the block start of
/// `i`.
pub proof fn lemma_cover_start<B: AlignedBlock>(blk: B, i: B::Index)
    requires
        blk.inv(),
        block_covers(blk, i),
    ensures
        blk.spec_position() == spec_block_start::<B>(i),
{
    blk.lemma_wf();
    let a = B::spec_alignment() as int;
    let p = blk.spec_position() as int;
    let iv = i.as_nat() as int;
    lemma_fundamental_div_mod(p, a);
    assert(a * (p / a) == (p / a) * a) by (nonlinear_arith);
    lemma_fundamental_div_mod_converse(iv, a, p / a, iv - p);
}

/// Two indices spanned by one block share their block start.
pub proof fn lemma_same_block_start<B: AlignedBlock>(i: B::Index, j: B::Index)
    requires
        B::spec_alignment() > 0,
        spec_block_start::<B>(i) <= j.as_nat() < spec_block_start::<B>(i) + B::spec_alignment(),
    ensures
        spec_block_start::<B>(j) == spec_block_start::<B>(i),
{
    let a = B::spec_alignment() as int;
    let iv = i.as_nat() as int;
    let jv = j.as_nat() as int;
    lemma_block_round(iv, a);
    let s = (iv / a) * a;
    lemma_fundamental_div_mod_converse(jv, a, iv / a, jv - s);
}

/// A sequence of blocks fit for a sparse container: every block well
/// formed, positions strictly increasing.
pub open spec fn sparse_blocks_valid<B: AlignedBlock>(blocks: Seq<B>) -> bool {
    &&& forall|b: int| 0 <= b < blocks.len() ==> (#[trigger] blocks[b]).inv()
    &&& forall|b1: int, b2: int|
        0 <= b1 < b2 < blocks.len() ==> #[trigger] blocks[b1].spec_position()
            < #[trigger] blocks[b2].spec_position()
}

/// In a valid sparse sequence at most one block spans a given index; a
/// block known to span `i` is the covering block.
pub proof fn lemma_covering_unique<B: AlignedBlock>(blocks: Seq<B>, b: int, i: B::Index)
    requires
        sparse_blocks_valid(blocks),
        0 <= b < blocks.len(),
        block_covers(blocks[b], i),
    ensures
        has_covering(blocks, i),
        covering_index(blocks, i) == b,
{
    assert(has_covering(blocks, i));
    let b2 = covering_index(blocks, i);
    lemma_cover_start(blocks[b], i);
    lemma_cover_start(blocks[b2], i);
}

/// A vector of items that are themselves aligned blocks, sorted strictly by
/// position with gaps permitted: every index inside a gap reads as the
/// value of a caller-supplied default policy, and a write into a gap lazily
/// materializes a fresh default-filled block.
pub struct SparseVec<T: IndexedBlock, D> {
    default_value: D,
    vec: Vec<T>,
}

impl<T, D> SparseVec<T, D> where
    T: AlignedBlock,
    D: DefaultPerIndex<<T as IndexedBlock>::Index, <T as IndexedBlock>::Item>,
 {
    /// The blocks held, in order of position.
    pub closed spec fn blocks(&self) -> Seq<T> {
        self.vec@
    }

    /// The default-value policy consulted for indices no block spans.
    pub closed spec fn spec_policy(&self) -> D {
        self.default_value
    }

    /// The invariant of a SparseVec: valid blocks and a usable policy.
    pub open spec fn well_formed(&self) -> bool {
        sparse_blocks_valid(self.blocks()) && self.spec_policy().policy_wf()
    }

    /// The outcome the validation of a prospective block sequence reports:
    /// `None` when the blocks are valid, otherwise the error for the first
    /// offending block (a malformed block before an order violation).
    pub open spec fn spec_validate(blocks: Seq<T>) -> Option<StorageError>
        decreases blocks.len(),
    {
        if blocks.len() == 0 {
            None
        } else {
            match Self::spec_validate(blocks.drop_last()) {
                Some(e) => Some(e),
                None => {
                    if !blocks.last().inv() {
                        Some(StorageError::NotAligned)
                    } else if blocks.len() >= 2 && blocks[blocks.len() - 2].spec_position()
                        >= blocks.last().spec_position() {
                        Some(StorageError::NotMonotonic)
                    } else {
                        None
                    }
                }
            }
        }
    }

    /// An error reported for a prefix stands for the whole sequence.
    proof fn lemma_error_persists(blocks: Seq<T>, m: int)
        requires
            0 <= m <= blocks.len(),
            Self::spec_validate(blocks.take(m)) is Some,
        ensures
            Self::spec_validate(blocks) == Self::spec_validate(blocks.take(m)),
        decreases blocks.len() - m,
    {
        if m == blocks.len() {
            assert(blocks.take(m) =~= blocks);
        } else {
            assert(blocks.take(m + 1).drop_last() =~= blocks.take(m));
            assert(Self::spec_validate(blocks.take(m + 1)) == Self::spec_validate(blocks.take(m)));
            Self::lemma_error_persists(blocks, m + 1);
        }
    }

    /// In a sequence whose adjacent positions increase, all positions
    /// increase.
    proof fn lemma_adjacent_sorted(blocks: Seq<T>, b1: int, b2: int)
        requires
            forall|b: int|
                0 < b < blocks.len() ==> #[trigger] blocks[b - 1].spec_position()
                    < blocks[b].spec_position(),
            0 <= b1 < b2 < blocks.len(),
        ensures
            blocks[b1].spec_position() < blocks[b2].spec_position(),
        decreases b2 - b1,
    {
        if b2 > b1 + 1 {
            Self::lemma_adjacent_sorted(blocks, b1, b2 - 1);
        }
        assert(blocks[b2 - 1].spec_position() < blocks[b2].spec_position());
    }

    /// Validation succeeds exactly on valid sparse sequences.
    proof fn lemma_validate_valid(blocks: Seq<T>)
        ensures
            Self::spec_validate(blocks) is None <==> sparse_blocks_valid(blocks),
        decreases blocks.len(),
    {
        if blocks.len() == 0 {
        } else {
            Self::lemma_validate_valid(blocks.drop_last());
            let prefix = blocks.drop_last();
            if Self::spec_validate(blocks) is None {
                assert(sparse_blocks_valid(prefix));
                assert forall|b: int| 0 <= b < blocks.len() implies (#[trigger] blocks[b]).inv() by {
                    if b < blocks.len() - 1 {
                        assert(blocks[b] == prefix[b]);
                    }
                }
                assert forall|b: int|
                    0 < b < blocks.len() implies #[trigger] blocks[b - 1].spec_position()
                    < blocks[b].spec_position() by {
                    if b < blocks.len() - 1 {
                        assert(prefix[b - 1].spec_position() < prefix[b].spec_position());
                    }
                }
                assert forall|b1: int, b2: int|
                    0 <= b1 < b2 < blocks.len() implies #[trigger] blocks[b1].spec_position()
                    < #[trigger] blocks[b2].spec_position() by {
                    Self::lemma_adjacent_sorted(blocks, b1, b2);
                }
            }
            if sparse_blocks_valid(blocks) {
                assert forall|b: int| 0 <= b < prefix.len() implies (#[trigger] prefix[b]).inv() by {
                    assert(prefix[b] == blocks[b]);
                }
                assert forall|b1: int, b2: int|
                    0 <= b1 < b2 < prefix.len() implies #[trigger] prefix[b1].spec_position()
                    < #[trigger] prefix[b2].spec_position() by {
                    assert(blocks[b1].spec_position() < blocks[b2].spec_position());
                }
                assert(Self::spec_validate(prefix) is None);
            }
        }
    }

    /// Construct a new SparseVec from an existing Vec of blocks, which must
    /// be well formed and sorted strictly ascending by position (gaps are
    /// fine). This is a fast operation.
    pub fn new_from(default_value: D, vec: Vec<T>) -> (r: Result<Self, StorageError>)
        requires
            default_value.policy_wf(),
        ensures
            r is Ok <==> sparse_blocks_valid(vec@),
            r matches Ok(v) ==> {
                &&& v.well_formed()
                &&& v.blocks() == vec@
                &&& v.spec_policy() == default_value
            },
            r matches Err(e) ==> Self::spec_validate(vec@) == Some(e),
    {
        proof {
            Self::lemma_validate_valid(vec@);
        }
        let mut k: usize = 0;
        while k < vec.len()
            invariant
                k <= vec@.len(),
                Self::spec_validate(vec@.take(k as int)) is None,
                forall|b: int| 0 <= b < k ==> (#[trigger] vec@[b]).inv(),
                forall|b: int|
                    0 < b < k ==> #[trigger] vec@[b - 1].spec_position()
                        < vec@[b].spec_position(),
            decreases vec@.len() - k,
        {
            let ghost prefix = vec@.take(k as int);
            let ghost extended = vec@.take(k + 1);
            proof {
                assert(extended.drop_last() =~= prefix);
            }
            if !vec[k].is_well_formed() {
                proof {
                    assert(Self::spec_validate(extended) == Some(StorageError::NotAligned));
                    Self::lemma_error_persists(vec@, k + 1);
                    Self::lemma_validate_valid(vec@);
                }
                return Err(StorageError::NotAligned);
            }
            if k > 0 && !vec[k - 1].position().lt(vec[k].position()) {
                proof {
                    assert(extended[k - 1] == vec@[k - 1]);
                    assert(extended.last() == vec@[k as int]);
                    assert(Self::spec_validate(extended) == Some(StorageError::NotMonotonic));
                    Self::lemma_error_persists(vec@, k + 1);
                    Self::lemma_validate_valid(vec@);
                }
                return Err(StorageError::NotMonotonic);
            }
            proof {
                assert(Self::spec_validate(extended) is None);
            }
            k = k + 1;
        }
        proof {
            assert(vec@.take(vec@.len() as int) =~= vec@);
        }
        Ok(SparseVec { default_value, vec })
    }

    /// Unwrap a SparseVec back into a Vec.
    /// This is a fast operation.
    pub fn into_vec(self) -> (r: Vec<T>)
        ensures
            r@ == self.blocks(),
    {
        self.vec
    }

    /// Push an entire block onto the end of this SparseVec. The new block
    /// must be well formed and positioned strictly after every block
    /// already present; it need not be contiguous with them.
    pub fn push_block(self, t: T) -> (r: Result<Self, StorageError>)
        requires
            self.well_formed(),
        ensures
            r is Ok <==> t.inv() && (self.blocks().len() == 0
                || self.blocks().last().spec_position() < t.spec_position()),
            r matches Ok(v) ==> {
                &&& v.well_formed()
                &&& v.blocks() == self.blocks().push(t)
                &&& v.spec_policy() == self.spec_policy()
            },
            r == Result::<Self, StorageError>::Err(StorageError::NotAligned) <==> !t.inv(),
            r == Result::<Self, StorageError>::Err(StorageError::NotMonotonic) <==> t.inv()
                && self.blocks().len() > 0 && self.blocks().last().spec_position()
                >= t.spec_position(),
    {
        if !t.is_well_formed() {
            return Err(StorageError::NotAligned);
        }
        if self.vec.len() > 0 && !self.vec[self.vec.len() - 1].position().lt(t.position()) {
            return Err(StorageError::NotMonotonic);
        }
        let mut vec = self.vec;
        let ghost old_blocks = vec@;
        vec.push(t);
        proof {
            let blocks = vec@;
            assert forall|b1: int, b2: int|
                0 <= b1 < b2 < blocks.len() implies #[trigger] blocks[b1].spec_position()
                < #[trigger] blocks[b2].spec_position() by {
                if b2 < blocks.len() - 1 {
                    assert(old_blocks[b1].spec_position() < old_blocks[b2].spec_position());
                } else if b1 < blocks.len() - 1 {
                    if b1 < old_blocks.len() - 1 {
                        assert(old_blocks[b1].spec_position()
                            < old_blocks[old_blocks.len() - 1].spec_position());
                    }
                }
            }
        }
        Ok(SparseVec { default_value: self.default_value, vec })
    }

    /// Pop an entire block off of the end of this SparseVec; `None` when it
    /// holds no block.
    pub fn pop_block(self) -> (r: (Self, Option<T>))
        requires
            self.well_formed(),
        ensures
            r.0.well_formed(),
            r.0.spec_policy() == self.spec_policy(),
            self.blocks().len() == 0 ==> r.0.blocks() == self.blocks() && r.1 is None,
            self.blocks().len() > 0 ==> r.1 == Some(self.blocks().last()) && r.0.blocks()
                == self.blocks().drop_last(),
    {
        let mut vec = self.vec;
        let result = vec.pop();
        proof {
            if self.blocks().len() > 0 {
                assert(vec@ =~= self.blocks().drop_last());
            }
        }
        (SparseVec { default_value: self.default_value, vec }, result)
    }
}

impl<T, D> IndexedBlock for SparseVec<T, D> where
    T: AlignedBlock,
    D: DefaultPerIndex<<T as IndexedBlock>::Index, <T as IndexedBlock>::Item>,
 {
    type Index = <T as IndexedBlock>::Index;

    type Item = <T as IndexedBlock>::Item;

    open spec fn inv(&self) -> bool {
        self.well_formed()
    }

    open spec fn readable(&self, index: Self::Index) -> bool {
        true
    }

    open spec fn writable(&self, index: Self::Index) -> bool {
        T::spec_alignment() > 0 && spec_block_start::<T>(index) + T::spec_alignment()
            <= <T as IndexedBlock>::Index::spec_max() + 1
    }

    open spec fn spec_at(&self, index: Self::Index) -> Self::Item {
        if has_covering(self.blocks(), index) {
            self.blocks()[covering_index(self.blocks(), index)].spec_at(index)
        } else {
            self.spec_policy().spec_default_at(index)
        }
    }
}

impl<T, D> SparseVec<T, D> where
    T: AlignedBlock,
    D: DefaultPerIndex<<T as IndexedBlock>::Index, <T as IndexedBlock>::Item>,
 {
    /// Binary search for the block spanning an absolute index: either the
    /// offset of that block, or the offset at which a block starting at the
    /// index's block start would have to be inserted to keep the sequence
    /// sorted.
    fn index_of(&self, index: <T as IndexedBlock>::Index) -> (r: Result<usize, usize>)
        requires
            self.well_formed(),
        ensures
            r matches Ok(b) ==> b < self.blocks().len() && block_covers(
                self.blocks()[b as int],
                index,
            ),
            r matches Err(ip) ==> {
                &&& ip <= self.blocks().len()
                &&& !has_covering(self.blocks(), index)
                &&& forall|b: int|
                    0 <= b < ip ==> (#[trigger] self.blocks()[b].spec_position())
                        < spec_block_start::<T>(index)
                &&& forall|b: int|
                    ip <= b < self.blocks().len() ==> (#[trigger] self.blocks()[b].spec_position())
                        > spec_block_start::<T>(index)
            },
    {
        if self.vec.len() == 0 {
            return Err(0);
        }
        proof {
            assert(self.blocks()[0].inv());
            self.vec@[0].lemma_wf();
        }
        let alignment = T::alignment();
        let target = index.block(alignment);
        let ghost start = spec_block_start::<T>(index);
        let mut lo: usize = 0;
        let mut hi: usize = self.vec.len();
        while lo < hi
            invariant
                self.well_formed(),
                lo <= hi <= self.blocks().len(),
                target.as_nat() == start,
                forall|b: int|
                    0 <= b < lo ==> (#[trigger] self.blocks()[b].spec_position()) < start,
                forall|b: int|
                    hi <= b < self.blocks().len() ==> (#[trigger] self.blocks()[
                        b
                    ].spec_position()) >= start,
            decreases hi - lo,
        {
            let mid = lo + (hi - lo) / 2;
            if self.vec[mid].position().lt(target) {
                lo = mid + 1;
                proof {
                    assert forall|b: int|
                        0 <= b < lo implies (#[trigger] self.blocks()[b].spec_position())
                        < start by {
                        if b < mid {
                            assert(self.blocks()[b].spec_position() < self.blocks()[
                                mid as int
                            ].spec_position());
                        }
                    }
                }
            } else {
                hi = mid;
                proof {
                    assert forall|b: int|
                        hi <= b < self.blocks().len() implies (#[trigger] self.blocks()[
                        b
                    ].spec_position()) >= start by {
                        if b > mid {
                            assert(self.blocks()[mid as int].spec_position() < self.blocks()[
                                b
                            ].spec_position());
                        }
                    }
                }
            }
        }
        if lo < self.vec.len() && !target.lt(self.vec[lo].position()) {
            proof {
                assert(self.blocks()[lo as int].spec_position() == start);
                lemma_block_round(index.as_nat() as int, T::spec_alignment() as int);
            }
            Ok(lo)
        } else {
            proof {
                assert forall|b: int|
                    lo <= b < self.blocks().len() implies (#[trigger] self.blocks()[
                    b
                ].spec_position()) > start by {
                    if b > lo {
                        assert(self.blocks()[lo as int].spec_position() < self.blocks()[
                            b
                        ].spec_position());
                    }
                }
                if has_covering(self.blocks(), index) {
                    let b = covering_index(self.blocks(), index);
                    assert(0 <= b < self.blocks().len() && block_covers(
                        self.blocks()[b],
                        index,
                    ));
                    lemma_cover_start(self.blocks()[b], index);
                }
            }
            Err(lo)
        }
    }
}

impl<T, D> BlockFetch for SparseVec<T, D> where
    T: AlignedBlock + BlockFetch,
    D: DefaultPerIndex<<T as IndexedBlock>::Index, <T as IndexedBlock>::Item>,
 {
    fn fetch(&self, index: Self::Index) -> Self::Item {
        match self.index_of(index) {
            Ok(b) => {
                proof {
                    lemma_covering_unique(self.blocks(), b as int, index);
                    assert(self.blocks()[b as int].inv());
                    self.vec@[b as int].lemma_wf();
                }
                self.vec[b].fetch(index)
            },
            Err(_) => self.default_value.default_at_index(index),
        }
    }
}

/// Replacing one block of a valid sparse sequence with a well-formed block
/// at the same position keeps the sequence valid and moves no coverage:
/// indices spanned by the replaced block are spanned by its successor, and
/// every other index keeps its covering block, or its absence.
pub proof fn lemma_update_same_position<B: AlignedBlock>(
    blocks: Seq<B>,
    b: int,
    nb: B,
    j: B::Index,
)
    requires
        sparse_blocks_valid(blocks),
        0 <= b < blocks.len(),
        nb.inv(),
        nb.spec_position() == blocks[b].spec_position(),
    ensures
        sparse_blocks_valid(blocks.update(b, nb)),
        block_covers(blocks[b], j) ==> {
            &&& has_covering(blocks, j) && covering_index(blocks, j) == b
            &&& has_covering(blocks.update(b, nb), j) && covering_index(blocks.update(b, nb), j)
                == b
        },
        !block_covers(blocks[b], j) ==> {
            &&& (has_covering(blocks.update(b, nb), j) <==> has_covering(blocks, j))
            &&& (has_covering(blocks, j) ==> covering_index(blocks.update(b, nb), j)
                == covering_index(blocks, j) && blocks.update(b, nb)[covering_index(blocks, j)]
                == blocks[covering_index(blocks, j)])
        },
{
    let updated = blocks.update(b, nb);
    assert forall|b1: int, b2: int|
        0 <= b1 < b2 < updated.len() implies #[trigger] updated[b1].spec_position()
        < #[trigger] updated[b2].spec_position() by {
        assert(blocks[b1].spec_position() < blocks[b2].spec_position());
    }
    if block_covers(blocks[b], j) {
        lemma_covering_unique(blocks, b, j);
        assert(block_covers(updated[b], j));
        lemma_covering_unique(updated, b, j);
    } else {
        if has_covering(blocks, j) {
            let c = covering_index(blocks, j);
            assert(0 <= c < blocks.len() && block_covers(blocks[c], j));
            assert(c != b);
            assert(block_covers(updated[c], j));
            lemma_covering_unique(updated, c, j);
            lemma_covering_unique(blocks, c, j);
        }
        if has_covering(updated, j) {
            let c = covering_index(updated, j);
            assert(0 <= c < updated.len() && block_covers(updated[c], j));
            assert(c != b);
            assert(block_covers(blocks[c], j));
            lemma_covering_unique(blocks, c, j);
        }
    }
}

impl<T, D> SparseVec<T, D> where
    T: AlignedBlock,
    D: DefaultPerIndex<<T as IndexedBlock>::Index, <T as IndexedBlock>::Item>,
 {
    /// The offset of the block spanning `index`, materializing a fresh
    /// default-filled block at the index's block start if no block spans it
    /// yet. Materialization does not change the value observed at any
    /// index.
    fn ensure_index_exists(&mut self, index: <T as IndexedBlock>::Index) -> (b: usize) where
        T: AlignedBlockFromDefault,

        requires
            old(self).well_formed(),
            old(self).writable(index),
        ensures
            final(self).well_formed(),
            b < final(self).blocks().len(),
            final(self).blocks()[b as int].inv(),
            block_covers(final(self).blocks()[b as int], index),
            final(self).spec_policy() == old(self).spec_policy(),
            forall|j: <T as IndexedBlock>::Index| #![trigger final(self).spec_at(j)]
                final(self).spec_at(j) == old(self).spec_at(j),
            has_covering(old(self).blocks(), index) ==> final(self).blocks() == old(
                self,
            ).blocks(),
            !has_covering(old(self).blocks(), index) ==> final(self).blocks().len() == old(
                self,
            ).blocks().len() + 1 && final(self).blocks()[b as int].spec_position()
                == spec_block_start::<T>(index),
    {
        let ghost old_blocks = self.vec@;
        match self.index_of(index) {
            Ok(found) => {
                proof {
                    lemma_covering_unique(self.blocks(), found as int, index);
                }
                found
            },
            Err(insert_at) => {
                let alignment = T::alignment();
                let start = index.block(alignment);
                let fresh = T::default_per_index(start, &self.default_value);
                proof {
                    fresh.lemma_wf();
                }
                self.vec.insert(insert_at, fresh);
                proof {
                    let blocks = self.vec@;
                    let sbs = spec_block_start::<T>(index);
                    let ip = insert_at as int;
                    let a = T::spec_alignment();
                    assert forall|b2: int| 0 <= b2 < blocks.len() implies (#[trigger] blocks[
                        b2
                    ]).inv() by {
                        if b2 < ip {
                            assert(blocks[b2] == old_blocks[b2]);
                        } else if b2 > ip {
                            assert(blocks[b2] == old_blocks[b2 - 1]);
                        }
                    }
                    assert forall|b1: int, b2: int|
                        0 <= b1 < b2 < blocks.len() implies #[trigger] blocks[b1].spec_position()
                        < #[trigger] blocks[b2].spec_position() by {
                        if b1 < ip && b2 < ip {
                            assert(old_blocks[b1].spec_position()
                                < old_blocks[b2].spec_position());
                        } else if b1 < ip && b2 == ip {
                            assert(old_blocks[b1].spec_position() < sbs);
                        } else if b1 < ip && b2 > ip {
                            assert(old_blocks[b1].spec_position() < sbs);
                            assert(old_blocks[b2 - 1].spec_position() > sbs);
                        } else if b1 == ip {
                            assert(old_blocks[b2 - 1].spec_position() > sbs);
                        } else {
                            assert(old_blocks[b1 - 1].spec_position()
                                < old_blocks[b2 - 1].spec_position());
                        }
                    }
                    assert forall|j: <T as IndexedBlock>::Index| #![trigger self.spec_at(j)]
                        self.spec_at(j) == old(self).spec_at(j) by {
                        if block_covers(fresh, j) {
                            lemma_covering_unique(blocks, ip, j);
                            lemma_same_block_start::<T>(index, j);
                            if has_covering(old_blocks, j) {
                                let c = covering_index(old_blocks, j);
                                assert(0 <= c < old_blocks.len() && block_covers(
                                    old_blocks[c],
                                    j,
                                ));
                                lemma_cover_start(old_blocks[c], j);
                            }
                            assert(fresh.readable(j));
                        } else {
                            if has_covering(old_blocks, j) {
                                let c = covering_index(old_blocks, j);
                                assert(0 <= c < old_blocks.len() && block_covers(
                                    old_blocks[c],
                                    j,
                                ));
                                let c2 = if c < ip {
                                    c
                                } else {
                                    c + 1
                                };
                                assert(blocks[c2] == old_blocks[c]);
                                lemma_covering_unique(blocks, c2, j);
                            }
                            if has_covering(blocks, j) {
                                let c2 = covering_index(blocks, j);
                                assert(0 <= c2 < blocks.len() && block_covers(blocks[c2], j));
                                assert(c2 != ip);
                                let c = if c2 < ip {
                                    c2
                                } else {
                                    c2 - 1
                                };
                                assert(blocks[c2] == old_blocks[c]);
                                lemma_covering_unique(old_blocks, c, j);
                            }
                        }
                    }
                }
                insert_at
            },
        }
    }
}

impl<T, D> BlockStore for SparseVec<T, D> where
    T: AlignedBlock + BlockStore + AlignedBlockFromDefault,
    D: DefaultPerIndex<<T as IndexedBlock>::Index, <T as IndexedBlock>::Item>,
 {
    /// Besides the contract every store obeys, a store into a sparse
    /// container keeps its default policy, leaves the held blocks alone
    /// when one already spans the index, and otherwise materializes
    /// exactly one new block, at the index's block start.
    fn store(&mut self, index: Self::Index, item: Self::Item)
        ensures
            final(self).spec_policy() == old(self).spec_policy(),
            has_covering(old(self).blocks(), index) ==> final(self).blocks().len() == old(
                self,
            ).blocks().len(),
            !has_covering(old(self).blocks(), index) ==> final(self).blocks().len() == old(
                self,
            ).blocks().len() + 1,
            has_covering(final(self).blocks(), index),
            final(self).blocks()[covering_index(final(self).blocks(), index)].spec_position()
                == spec_block_start::<T>(index),
    {
        let b = self.ensure_index_exists(index);
        let ghost mid = *self;
        proof {
            self.vec@[b as int].lemma_wf();
        }
        let blk = &mut self.vec[b];
        let ghost old_blk = *blk;
        blk.store(index, item);
        proof {
            lemma_same_span_same_position(&old_blk, &*blk);
            assert(self.vec@ =~= mid.blocks().update(b as int, *blk));
            assert forall|j: <T as IndexedBlock>::Index| #![trigger self.spec_at(j)]
                j.as_nat() != index.as_nat() implies self.spec_at(j) == mid.spec_at(j) by {
                lemma_update_same_position(mid.blocks(), b as int, *blk, j);
                if block_covers(old_blk, j) {
                    old_blk.lemma_wf();
                    assert(old_blk.readable(j));
                }
            }
            lemma_update_same_position(mid.blocks(), b as int, *blk, index);
            lemma_cover_start(self.vec@[b as int], index);
        }
    }
}

impl<T, D> Default for SparseVec<T, D> where
    T: AlignedBlock,
    D: DefaultPerIndex<<T as IndexedBlock>::Index, <T as IndexedBlock>::Item> + Default,
 {
    /// An empty SparseVec over the policy type's default value; it holds no
    /// block, so every index reads as the policy's value.
    fn default() -> (r: Self)
        ensures
            r.blocks().len() == 0,
            D::default.ensures((), r.spec_policy()),
    {
        SparseVec { default_value: D::default(), vec: Vec::new() }
    }
}

} // verus!
