//! The vector index: its counts and the progress of building it.
use vstd::prelude::*;

verus! {

/// Counts of the vector index.
#[derive(Debug, Clone, Default)]
pub struct VectorStats {
    /// all chunks
    pub chunks: i64,
    /// vectors of the current model
    pub vectors: i64,
    /// chunks without a vector of the current model
    pub pending: i64,
    /// vectors left from other models
    pub stale_vectors: i64,
}

/// Result of one building step.
#[derive(Debug, Clone, Default)]
pub struct EmbedProgress {
    /// chunks embedded in this step
    pub embedded: usize,
    /// chunks still without a vector
    pub remaining: i64,
    /// vector dimension
    pub dim: usize,
    pub elapsed_ms: u64,
}

} // verus!
