mod sparse_bitset;

pub use sparse_bitset::SparseBitset;
