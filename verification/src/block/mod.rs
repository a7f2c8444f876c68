mod aligned_block;
mod aligned_vec;
mod arc_block;
mod bitfield;
mod dense_vec;
mod iterators;
mod singleton;
mod sparse_vec;

pub use aligned_vec::AlignedVec;

pub use arc_block::lemma_cow_isolation;

pub use bitfield::{spec_bit_u128, spec_bit_u64, spec_bit_usize, AlignedBitfield};

pub use dense_vec::DenseVec;

pub use iterators::{BlockFetchIterator, BlockIndexIterator};

pub use sparse_vec::{
    block_covers, covering_index, has_covering, lemma_cover_start, lemma_covering_unique,
    lemma_same_block_start, sparse_blocks_valid, spec_block_start, SparseVec,
};

pub use aligned_block::{
    AlignedBlock, AlignedBlockFromDefault, AlignedBlockFromIterator, BlockClone, BlockFetch,
    BlockStore, DefaultPerIndex, DefaultValue, IndexedBlock, StorageError,
};
