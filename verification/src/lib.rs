//! Shard-level request coordination for a sharded, replicated collection:
//! the pool of logical clocks that stamps in-flight writes, the rules that
//! reconcile per-shard write outcomes, and the merging of per-shard reads.

pub mod collection;
pub mod error;
pub mod record;
pub mod schema;
pub mod shard;
pub mod vector_clock;
