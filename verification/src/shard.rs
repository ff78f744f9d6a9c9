//! How shards are named and addressed.

use vstd::prelude::*;

verus! {

/// Identifies one shard of a collection.
pub type ShardId = u32;

/// A user-supplied partition label.
#[derive(Debug, Clone, PartialEq, Eq)]
pub enum ShardKey {
    Keyword(String),
    Number(u64),
}

impl ShardKey {
    /// A copy of this key.
    pub fn duplicate(&self) -> (copy: ShardKey)
        ensures
            copy == *self,
    {
        match self {
            ShardKey::Keyword(word) => ShardKey::Keyword(word.clone()),
            ShardKey::Number(number) => ShardKey::Number(*number),
        }
    }
}

/// Which shards a request addresses.
#[derive(Debug, Clone, PartialEq, Eq)]
pub enum ShardSelector {
    /// Every shard.
    All,
    /// One shard, named by its id.
    ShardId(ShardId),
    /// The shards under one key.
    ShardKey(ShardKey),
    /// The shards under any of several keys.
    ShardKeys(Vec<ShardKey>),
}

impl ShardSelector {
    /// Whether the selector names one shard by its id. A replica set that is
    /// addressed this way does no routing of its own.
    pub fn is_shard_id(&self) -> (by_id: bool)
        ensures
            by_id == (*self is ShardId),
    {
        match self {
            ShardSelector::ShardId(_) => true,
            _ => false,
        }
    }
}

/// How strictly a write is ordered against other writes to the same shard.
#[derive(Debug, Clone, Copy, PartialEq, Eq, PartialOrd, Ord)]
pub enum WriteOrdering {
    /// Apply on the local replica; replication catches up later.
    Weak,
    /// Go through the replica set's consistency path.
    Medium,
    /// Go through the replica set's consistency path, at its strictest level.
    Strong,
}

} // verus!
