//! Points, write acknowledgements and the requests that read them.
//!
//! A record's payload and vector are carried, never inspected, so their types
//! are left to the caller.

use vstd::prelude::*;
use crate::shard::ShardKey;

verus! {

/// Identifies one point of a collection.
pub type PointId = u64;

/// The position of a point in an ordered scroll: an integer that orders as
/// the payload value that the scroll is ordered by.
pub type OrderValue = i64;

/// One retrieved point. A shard leaves `shard_key` empty; it is filled in
/// when the shard's answer is gathered.
#[derive(Debug, Clone, PartialEq)]
pub struct Record<P, V> {
    pub id: PointId,
    pub payload: Option<P>,
    pub vector: Option<V>,
    pub shard_key: Option<ShardKey>,
}

/// How far a write has got.
#[derive(Debug, Clone, Copy, PartialEq, Eq)]
pub enum UpdateStatus {
    Acknowledged,
    Completed,
}

/// The clock reading that a replica stamped a write with.
#[derive(Debug, Clone, Copy, PartialEq, Eq)]
pub struct ClockTag {
    pub peer_id: u64,
    pub clock_id: u32,
    pub clock_tick: u64,
}

/// What a shard answers to a write.
#[derive(Debug, Clone, Copy, PartialEq, Eq)]
pub struct UpdateResult {
    pub operation_id: u64,
    pub status: UpdateStatus,
    pub clock_tag: Option<ClockTag>,
}

/// How many points match.
#[derive(Debug, Clone, Copy, PartialEq, Eq)]
pub struct CountResult {
    pub count: u64,
}

/// The direction of an ordered scroll.
#[derive(Debug, Clone, Copy, PartialEq, Eq)]
pub enum Direction {
    Asc,
    Desc,
}

impl Direction {
    /// Whether a point with order value `a` may come before one with `b`.
    pub open spec fn admits(self, a: OrderValue, b: OrderValue) -> bool {
        match self {
            Direction::Asc => a <= b,
            Direction::Desc => a >= b,
        }
    }

    /// Whether a point with order value `a` may come before one with `b`:
    /// `a <= b` when ascending, `a >= b` when descending.
    pub fn comes_first(self, a: OrderValue, b: OrderValue) -> (first: bool)
        ensures
            first == self.admits(a, b),
    {
        match self {
            Direction::Asc => a <= b,
            Direction::Desc => a >= b,
        }
    }
}

/// Orders a scroll by a payload value. The key must have a range index.
#[derive(Debug, Clone, PartialEq, Eq)]
pub struct OrderBy {
    pub key: String,
    pub direction: Direction,
    pub start_from: Option<OrderValue>,
}

/// Which payload fields to pick.
#[derive(Debug, Clone, PartialEq, Eq)]
pub enum PayloadSelector {
    Include(Vec<String>),
    Exclude(Vec<String>),
}

/// Whether, and which part of, the payload is returned with a point.
#[derive(Debug, Clone, PartialEq, Eq)]
pub enum WithPayloadInterface {
    Bool(bool),
    Fields(Vec<String>),
    Selector(PayloadSelector),
}

/// Whether, and which of, the vectors are returned with a point.
#[derive(Debug, Clone, PartialEq, Eq)]
pub enum WithVector {
    Bool(bool),
    Selector(Vec<String>),
}

/// A request for one page of points. The filter is not part of it: it goes
/// to the shards as the caller holds it.
#[derive(Debug, Clone, PartialEq, Eq)]
pub struct ScrollRequest {
    /// The id to start from; not to be combined with `order_by`.
    pub offset: Option<PointId>,
    /// The page size; `DEFAULT_SCROLL_LIMIT` if absent.
    pub limit: Option<u64>,
    /// The payload to return; all of it if absent.
    pub with_payload: Option<WithPayloadInterface>,
    pub with_vector: WithVector,
    pub order_by: Option<OrderBy>,
}

/// The page size of a scroll request that names none.
pub const DEFAULT_SCROLL_LIMIT: u64 = 10;

impl ScrollRequest {
    /// The page size that the request asks for.
    pub open spec fn page_size(self) -> u64 {
        match self.limit {
            Some(limit) => limit,
            None => DEFAULT_SCROLL_LIMIT,
        }
    }

    /// The payload choice that the request asks for.
    pub open spec fn payload_choice(self) -> WithPayloadInterface {
        match self.with_payload {
            Some(choice) => choice,
            None => WithPayloadInterface::Bool(true),
        }
    }
}

/// One page of a scroll.
#[derive(Debug, Clone, PartialEq)]
pub struct ScrollResult<P, V> {
    pub points: Vec<Record<P, V>>,
    /// Where the next page starts; absent on the last page and on every page
    /// of an ordered scroll.
    pub next_page_offset: Option<PointId>,
}

} // verus!
