//! A collection, as far as request coordination reads it, and the rules by
//! which it routes requests to its shards and gathers their answers.
//!
//! Talking to shards is the caller's business. Each operation here is the
//! decision that stands before or after that: what to ask the shards for, and
//! what to make of what they answered.

use vstd::prelude::*;
use crate::schema::PayloadIndexSchema;

pub mod merge;
pub mod pagination;
pub mod read;
pub mod scroll;
pub mod update;

verus! {

/// What request coordination reads of a collection.
#[derive(Debug, Clone, PartialEq, Eq)]
pub struct Collection {
    pub payload_index_schema: PayloadIndexSchema,
}

impl Collection {
    /// A collection with the given indexed payload fields.
    pub fn new(payload_index_schema: PayloadIndexSchema) -> (collection: Collection)
        ensures
            collection.payload_index_schema == payload_index_schema,
    {
        Collection { payload_index_schema }
    }
}

} // verus!
