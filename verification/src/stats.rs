//! Observability snapshots.

use vstd::prelude::*;

verus! {

/// Aggregate drop statistics across all shards.
#[derive(Debug, Clone, PartialEq, Eq, Structural)]
pub struct SinkStats {
    /// Number of shards.
    pub shards: usize,
    /// Total items dropped because the destination ring was full.
    pub dropped: u64,
}

/// Per-shard drop statistics.
#[derive(Debug, Clone, PartialEq, Eq, Structural)]
pub struct ShardStats {
    /// Shard index.
    pub shard: usize,
    /// Items dropped on this shard because its ring was full.
    pub dropped: u64,
}

} // verus!
