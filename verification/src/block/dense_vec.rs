use super::aligned_block::{
    lemma_same_span_same_position, AlignedBlock, BlockFetch, BlockStore, DefaultPerIndex,
    IndexedBlock, StorageError,
};
use crate::numerical_index::lemma_block_round;
use vstd::arithmetic::div_mod::{lemma_fundamental_div_mod, lemma_fundamental_div_mod_converse};
use vstd::prelude::*;

verus! {

/// A vector of items that are themselves aligned blocks, packed densely:
/// the block at offset `b` of the sequence sits at position
/// `b * alignment`, so blocks cover `0, 1, 2, ...` with no gaps and no
/// overlaps, and addressing is plain arithmetic.
pub struct DenseVec<T> {
    vec: Vec<T>,
}

impl<T> DenseVec<T> where T: AlignedBlock + IndexedBlock<Index = usize> {
    /// The blocks held, in order of position.
    pub closed spec fn blocks(&self) -> Seq<T> {
        self.vec@
    }

    /// Whether a sequence of blocks is densely packed: every block is well
    /// formed and the block at offset `b` sits at position `b * alignment`.
    pub open spec fn spec_dense(blocks: Seq<T>) -> bool {
        forall|b: int|
            0 <= b < blocks.len() ==> (#[trigger] blocks[b]).inv() && blocks[b].spec_position()
                == b * T::spec_alignment()
    }

    /// The invariant of a DenseVec: its blocks are densely packed.
    pub open spec fn well_formed(&self) -> bool {
        Self::spec_dense(self.blocks())
    }

    /// Whether the block `t` may stand at offset `b` of a dense sequence.
    fn is_dense_at(b: usize, t: &T) -> (r: bool)
        ensures
            r <==> t.inv() && t.spec_position() == b * T::spec_alignment(),
    {
        if !t.is_well_formed() {
            false
        } else {
            proof {
                t.lemma_wf();
            }
            let alignment = T::alignment();
            let position = t.position();
            let ok = position % alignment == 0 && position / alignment == b;
            proof {
                let a = T::spec_alignment() as int;
                let p = t.spec_position() as int;
                let bi = b as int;
                assert(a * bi == bi * a) by (nonlinear_arith);
                if ok {
                    lemma_fundamental_div_mod(p, a);
                }
                if p == bi * a {
                    lemma_fundamental_div_mod_converse(p, a, bi, 0);
                }
            }
            ok
        }
    }

    /// Construct a new DenseVec from an existing Vec.
    /// This is a fast operation.
    pub fn new_from(vec: Vec<T>) -> (r: Result<Self, StorageError>)
        ensures
            r is Ok <==> Self::spec_dense(vec@),
            r matches Ok(v) ==> v.blocks() == vec@,
            r is Err ==> r == Result::<Self, StorageError>::Err(StorageError::NotDenselyPacked),
    {
        let mut b: usize = 0;
        while b < vec.len()
            invariant
                b <= vec@.len(),
                forall|j: int|
                    0 <= j < b ==> (#[trigger] vec@[j]).inv() && vec@[j].spec_position() == j
                        * T::spec_alignment(),
            decreases vec@.len() - b,
        {
            if !Self::is_dense_at(b, &vec[b]) {
                return Err(StorageError::NotDenselyPacked);
            }
            b = b + 1;
        }
        Ok(DenseVec { vec })
    }

    /// Unwrap a DenseVec back into a Vec.
    /// This is a fast operation.
    pub fn into_vec(self) -> (r: Vec<T>)
        ensures
            r@ == self.blocks(),
    {
        self.vec
    }

    /// Push an entire block onto the end of this DenseVec. The new block
    /// must continue the dense sequence: its position must be the number of
    /// blocks already present times the alignment.
    pub fn push_block(self, t: T) -> (r: Result<Self, StorageError>)
        requires
            self.well_formed(),
        ensures
            r is Ok <==> t.inv() && t.spec_position() == self.blocks().len()
                * T::spec_alignment(),
            r matches Ok(v) ==> {
                &&& v.blocks() == self.blocks().push(t)
                &&& v.well_formed()
            },
            r is Err ==> r == Result::<Self, StorageError>::Err(StorageError::NotDenselyPacked),
    {
        if Self::is_dense_at(self.vec.len(), &t) {
            let mut vec = self.vec;
            vec.push(t);
            Ok(DenseVec { vec })
        } else {
            Err(StorageError::NotDenselyPacked)
        }
    }

    /// Pop an entire block off of the end of this DenseVec; `None` when it
    /// holds no block.
    pub fn pop_block(self) -> (r: (Self, Option<T>))
        requires
            self.well_formed(),
        ensures
            r.0.well_formed(),
            self.blocks().len() == 0 ==> r.0.blocks() == self.blocks() && r.1 is None,
            self.blocks().len() > 0 ==> r.1 == Some(self.blocks().last()) && r.0.blocks()
                == self.blocks().drop_last(),
    {
        let mut vec = self.vec;
        let result = vec.pop();
        proof {
            if self.blocks().len() > 0 {
                assert(vec@ =~= self.blocks().drop_last());
            }
        }
        (DenseVec { vec }, result)
    }
}

impl<T> IndexedBlock for DenseVec<T> where T: AlignedBlock + IndexedBlock<Index = usize> {
    type Index = usize;

    type Item = T::Item;

    open spec fn inv(&self) -> bool {
        self.well_formed()
    }

    open spec fn readable(&self, index: usize) -> bool {
        T::spec_alignment() > 0 && index as nat / T::spec_alignment() < self.blocks().len()
    }

    open spec fn writable(&self, index: usize) -> bool {
        self.readable(index)
    }

    open spec fn spec_at(&self, index: usize) -> T::Item {
        self.blocks()[index as int / T::spec_alignment() as int].spec_at(index)
    }
}

impl<T> DenseVec<T> where T: AlignedBlock + IndexedBlock<Index = usize> {
    /// Given an absolute index within range, the offset of its containing
    /// block, which serves it.
    fn index_of(&self, index: usize) -> (r: usize)
        requires
            self.inv(),
            self.readable(index),
        ensures
            r < self.blocks().len(),
            r == index as nat / T::spec_alignment(),
            self.blocks()[r as int].inv(),
            self.blocks()[r as int].readable(index),
    {
        let alignment = T::alignment();
        let b = index / alignment;
        proof {
            let a = T::spec_alignment() as int;
            assert(self.blocks()[b as int].inv());
            self.vec@[b as int].lemma_wf();
            lemma_block_round(index as int, a);
            assert((b as int) * a == a * (b as int)) by (nonlinear_arith);
            assert(self.blocks()[b as int].spec_position() == (b as int) * a);
        }
        b
    }
}

impl<T> BlockFetch for DenseVec<T> where
    T: AlignedBlock + BlockFetch + IndexedBlock<Index = usize>,
 {
    fn fetch(&self, index: usize) -> T::Item {
        let b = self.index_of(index);
        self.vec[b].fetch(index)
    }
}

impl<T> BlockStore for DenseVec<T> where
    T: AlignedBlock + BlockStore + IndexedBlock<Index = usize>,
 {
    fn store(&mut self, index: usize, item: T::Item) {
        let b = self.index_of(index);
        let ghost old_blocks = self.vec@;
        proof {
            self.vec@[b as int].lemma_wf();
        }
        let blk = &mut self.vec[b];
        let ghost old_blk = *blk;
        blk.store(index, item);
        proof {
            lemma_same_span_same_position(&old_blk, &*blk);
            assert(self.vec@ =~= old_blocks.update(b as int, *blk));
            assert forall|j: usize|
                old(self).readable(j) && j as nat != index as nat implies self.spec_at(j) == old(
                self,
            ).spec_at(j) by {
                let a = T::spec_alignment() as int;
                let jb = j as int / a;
                if jb == b as int {
                    old_blk.lemma_wf();
                    lemma_block_round(j as int, a);
                    assert(jb * a == a * jb) by (nonlinear_arith);
                    assert(old_blk.readable(j));
                }
            }
        }
    }
}

impl<T> DefaultPerIndex<usize, Option<T::Item>> for DenseVec<T> where
    T: AlignedBlock + BlockFetch + IndexedBlock<Index = usize>,
 {
    open spec fn policy_wf(&self) -> bool {
        self.well_formed()
    }

    open spec fn spec_default_at(&self, i: usize) -> Option<T::Item> {
        if self.readable(i) {
            Some(self.spec_at(i))
        } else {
            None
        }
    }

    fn default_at_index(&self, i: usize) -> Option<T::Item> {
        if self.vec.len() == 0 {
            return None;
        }
        proof {
            assert(self.blocks()[0].inv());
            self.vec@[0].lemma_wf();
        }
        let alignment = T::alignment();
        if i / alignment < self.vec.len() {
            Some(self.fetch(i))
        } else {
            None
        }
    }
}

} // verus!
