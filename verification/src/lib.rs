//! Memory-efficient indexed storage over very large, sparsely populated
//! index domains: fixed-size, alignment-addressed blocks, densely packed and
//! sparse block containers built on them, a bit-packed block realizing a
//! sparse bitset, plus a run-length-encoding codec and a two-part vector.

/// Sparse bitsets.
pub mod bitset;
/// Blocks of data and containers of blocks.
pub mod block;
/// Index types for addressing aligned blocks.
pub mod numerical_index;
/// Run-length encoding.
pub mod rle;
/// A pair of half-vectors addressed as one sequence.
pub mod sort;
