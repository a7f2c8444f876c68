use super::aligned_block::{AlignedBlock, BlockFetch, IndexedBlock};
use crate::numerical_index::NumericalIndex;
use vstd::prelude::*;

verus! {

/// An iterator over the absolute indices an aligned block spans (not its
/// values): `position, position + 1, ..., position + alignment - 1`.
pub struct BlockIndexIterator<B: AlignedBlock> {
    indices: Vec<<B as IndexedBlock>::Index>,
    cursor: usize,
}

impl<B: AlignedBlock> BlockIndexIterator<B> {
    /// The iterator's cursor never passes the end of its indices.
    pub closed spec fn valid(&self) -> bool {
        self.cursor <= self.indices@.len()
    }

    /// The indices not yet handed out, in the order they will come.
    pub closed spec fn remaining(&self) -> Seq<<B as IndexedBlock>::Index> {
        self.indices@.skip(self.cursor as int)
    }

    /// Make a new iterator over the indices of a block.
    pub fn new(block: &B) -> (r: Self)
        requires
            block.inv(),
            B::spec_alignment() <= usize::MAX,
            block.spec_position() + B::spec_alignment() <= <B as IndexedBlock>::Index::spec_max()
                + 1,
        ensures
            r.valid(),
            r.remaining().len() == B::spec_alignment(),
            forall|k: int|
                0 <= k < r.remaining().len() ==> (#[trigger] r.remaining()[k]).as_nat()
                    == block.spec_position() + k,
    {
        let position = block.position();
        let indices = position.range(B::alignment());
        BlockIndexIterator { indices, cursor: 0 }
    }

    /// The next index of the block, or `None` when all have been handed
    /// out.
    pub fn next(&mut self) -> (r: Option<<B as IndexedBlock>::Index>)
        requires
            old(self).valid(),
        ensures
            final(self).valid(),
            old(self).remaining().len() == 0 ==> r is None && final(self).remaining()
                == old(self).remaining(),
            old(self).remaining().len() > 0 ==> r == Some(old(self).remaining()[0])
                && final(self).remaining() == old(self).remaining().skip(1),
    {
        if self.cursor < self.indices.len() {
            let i = self.indices[self.cursor];
            self.cursor = self.cursor + 1;
            proof {
                assert(self.remaining() =~= old(self).remaining().skip(1));
            }
            Some(i)
        } else {
            None
        }
    }
}

/// An iterator over the values a readable block holds, in index order.
pub struct BlockFetchIterator<'b, B: AlignedBlock> {
    iter: BlockIndexIterator<B>,
    block: &'b B,
}

impl<'b, B: AlignedBlock + BlockFetch> BlockFetchIterator<'b, B> {
    /// The block whose values are handed out.
    pub closed spec fn spec_block(&self) -> B {
        *self.block
    }

    /// The iterator walks a well-formed block and only hands out indices
    /// the block serves.
    pub closed spec fn valid(&self) -> bool {
        &&& self.iter.valid()
        &&& self.block.inv()
        &&& forall|k: int|
            0 <= k < self.iter.remaining().len() ==> self.block.readable(
                #[trigger] self.iter.remaining()[k],
            )
    }

    /// The indices whose values are still to come, in order.
    pub closed spec fn remaining(&self) -> Seq<<B as IndexedBlock>::Index> {
        self.iter.remaining()
    }

    /// Make a new iterator over the values of a block.
    pub fn new(block: &'b B) -> (r: Self)
        requires
            block.inv(),
            B::spec_alignment() <= usize::MAX,
            block.spec_position() + B::spec_alignment() <= <B as IndexedBlock>::Index::spec_max()
                + 1,
        ensures
            r.valid(),
            r.spec_block() == *block,
            r.remaining().len() == B::spec_alignment(),
            forall|k: int|
                0 <= k < r.remaining().len() ==> (#[trigger] r.remaining()[k]).as_nat()
                    == block.spec_position() + k,
    {
        let iter = BlockIndexIterator::new(block);
        proof {
            block.lemma_wf();
        }
        BlockFetchIterator { iter, block }
    }

    /// The block's value at its next index, or `None` when every index has
    /// been visited.
    pub fn next(&mut self) -> (r: Option<<B as IndexedBlock>::Item>)
        requires
            old(self).valid(),
        ensures
            final(self).valid(),
            final(self).spec_block() == old(self).spec_block(),
            old(self).remaining().len() == 0 ==> r is None && final(self).remaining()
                == old(self).remaining(),
            old(self).remaining().len() > 0 ==> {
                &&& r == Some(old(self).spec_block().spec_at(old(self).remaining()[0]))
                &&& final(self).remaining() == old(self).remaining().skip(1)
            },
    {
        match self.iter.next() {
            Some(i) => Some(self.block.fetch(i)),
            None => None,
        }
    }
}

} // verus!
