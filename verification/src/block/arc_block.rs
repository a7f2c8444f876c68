use super::aligned_block::{
    AlignedBlock, AlignedBlockFromDefault, AlignedBlockFromIterator, BlockClone, BlockFetch,
    BlockStore, DefaultPerIndex, IndexedBlock, StorageError,
};
use std::sync::Arc;
use vstd::prelude::*;

verus! {

// A reference-counted handle is itself a block: many owners may read one
// shared block through their own handles at no copying cost, and a store
// through one handle builds a private copy first, so the block the other
// handles observe never changes (copy-on-write snapshot isolation).
impl<B: IndexedBlock> IndexedBlock for Arc<B> {
    type Index = B::Index;

    type Item = B::Item;

    open spec fn inv(&self) -> bool {
        (**self).inv()
    }

    open spec fn readable(&self, index: B::Index) -> bool {
        (**self).readable(index)
    }

    open spec fn writable(&self, index: B::Index) -> bool {
        (**self).writable(index)
    }

    open spec fn spec_at(&self, index: B::Index) -> B::Item {
        (**self).spec_at(index)
    }
}

impl<B: AlignedBlock> AlignedBlock for Arc<B> {
    open spec fn spec_alignment() -> nat {
        B::spec_alignment()
    }

    open spec fn spec_position(&self) -> nat {
        (**self).spec_position()
    }

    proof fn lemma_wf(&self) {
        (**self).lemma_wf();
    }

    fn alignment() -> B::Index {
        B::alignment()
    }

    fn position(&self) -> B::Index {
        (**self).position()
    }

    fn is_well_formed(&self) -> bool {
        (**self).is_well_formed()
    }
}

impl<B: BlockFetch> BlockFetch for Arc<B> {
    fn fetch(&self, index: B::Index) -> B::Item {
        (**self).fetch(index)
    }
}

impl<B: BlockStore + BlockClone> BlockStore for Arc<B> {
    /// Store into this handle only: the handle takes a private,
    /// observationally equal copy of the block, mutates the copy, and
    /// points to it, so the block shared with other handles is untouched.
    fn store(&mut self, index: B::Index, item: B::Item) {
        let mut fresh = (**self).clone_block();
        fresh.store(index, item);
        *self = Arc::new(fresh);
    }
}

/// Copy-on-write snapshot isolation: two handles to one shared block
/// observe exactly the same values, and the contract of storing through a
/// handle speaks only of that handle, so the values observed through every
/// other handle of the block are unchanged by the store.
pub proof fn lemma_cow_isolation<B: IndexedBlock>(handle: Arc<B>, snapshot: Arc<B>)
    requires
        handle == snapshot,
    ensures
        forall|i: B::Index| #[trigger] snapshot.spec_at(i) == handle.spec_at(i),
        forall|i: B::Index| #[trigger] snapshot.readable(i) <==> handle.readable(i),
        snapshot.inv() == handle.inv(),
{
}

impl<B: BlockClone> BlockClone for Arc<B> {
    fn clone_block(&self) -> (r: Self) {
        Arc::new((**self).clone_block())
    }
}

impl<B: AlignedBlockFromDefault> AlignedBlockFromDefault for Arc<B> {
    fn default_per_index<D: DefaultPerIndex<B::Index, B::Item>>(
        position: B::Index,
        value: &D,
    ) -> (r: Self) {
        Arc::new(B::default_per_index(position, value))
    }
}

impl<B: AlignedBlockFromIterator> AlignedBlockFromIterator for Arc<B> {
    fn from_iterator(position: B::Index, items: &mut Vec<B::Item>) -> (r: Result<
        Self,
        StorageError,
    >) {
        match B::from_iterator(position, items) {
            Ok(block) => Ok(Arc::new(block)),
            Err(e) => Err(e),
        }
    }
}

impl<D, Index, Item> DefaultPerIndex<Index, Item> for Arc<D> where D: DefaultPerIndex<
    Index,
    Item,
> {
    open spec fn policy_wf(&self) -> bool {
        (**self).policy_wf()
    }

    open spec fn spec_default_at(&self, i: Index) -> Item {
        (**self).spec_default_at(i)
    }

    fn default_at_index(&self, i: Index) -> Item {
        (**self).default_at_index(i)
    }
}

} // verus!
