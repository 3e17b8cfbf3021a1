//! A bounded, set-associative key-value cache overlaid on a circular
//! append-only log of fixed-capacity entries.
//!
//! The index locates records by short hash fingerprints; the log owns the
//! storage and implicitly evicts the oldest record on wraparound. A sharded
//! wrapper partitions the structure across independent single-writer shards.

use vstd::prelude::*;

pub mod cachetable;
pub mod city;
pub mod hash;
pub mod key;
pub mod kv;
pub mod log;
pub mod model;
pub mod op;
pub mod set;
pub mod shard;
pub mod shardedtable;
pub mod slot;
pub mod utils;
pub mod value;

pub use cachetable::CacheTable;
pub use shardedtable::ShardedTable;

verus! {

/// Number of ways (slots) in one associative set.
pub const SIMD_SIZE: usize = 16;

} // verus!
