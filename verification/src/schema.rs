//! Which payload fields of a collection are indexed, as far as request
//! coordination reads it.

use vstd::prelude::*;

verus! {

/// One indexed payload field.
#[derive(Debug, Clone, PartialEq, Eq)]
pub struct IndexedField {
    pub key: String,
    /// Whether the index on this field answers range queries.
    pub range: bool,
}

/// The indexed payload fields of a collection. Where a key occurs twice, the
/// first entry counts.
#[derive(Debug, Clone, PartialEq, Eq)]
pub struct PayloadIndexSchema {
    pub fields: Vec<IndexedField>,
}

impl PayloadIndexSchema {
    /// Whether entry `at` is the one that decides for `key`: it carries the
    /// key and no earlier entry does.
    pub open spec fn decides(self, at: int, key: Seq<char>) -> bool {
        &&& 0 <= at < self.fields@.len()
        &&& self.fields@[at].key@ == key
        &&& forall|before: int| 0 <= before < at ==> (#[trigger] self.fields@[before]).key@ != key
    }

    /// Whether `key` has a range-capable index.
    pub open spec fn spec_has_range_index(self, key: Seq<char>) -> bool {
        exists|at: int| #[trigger] self.decides(at, key) && self.fields@[at].range
    }

    /// Whether `key` has a range-capable index.
    pub fn has_range_index(&self, key: &String) -> (found: bool)
        ensures
            found == self.spec_has_range_index(key@),
    {
        let mut at: usize = 0;
        while at < self.fields.len()
            invariant
                at <= self.fields@.len(),
                forall|before: int| 0 <= before < at ==> (#[trigger] self.fields@[before]).key@ != key@,
            decreases self.fields@.len() - at,
        {
            if self.fields[at].key == *key {
                assert(self.decides(at as int, key@));
                assert forall|other: int| #[trigger] self.decides(other, key@) implies other == at by {
                    if other < at {
                        assert(self.fields@[other].key@ != key@);
                    } else if other > at {
                        assert(self.fields@[at as int].key@ == key@);
                    }
                }
                return self.fields[at].range;
            }
            at = at + 1;
        }
        assert forall|other: int| !#[trigger] self.decides(other, key@) by {
            if 0 <= other < self.fields@.len() {
                assert(self.fields@[other].key@ != key@);
            }
        }
        false
    }
}

} // verus!
