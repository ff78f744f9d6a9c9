//! Scrolling: paginated iteration over the points of the selected shards,
//! by id or by a payload value.

use vstd::prelude::*;
use vstd::string::StringExecFns;
use crate::collection::merge::{gather_sorted_by_id, merge_by_order_value, ordered, sorted_by_id};
use crate::collection::read::{all_stamped, all_stamped_runs, stamp_answers, stamp_runs, ShardAnswer};
use crate::collection::Collection;
use crate::error::{
    all_ok, fail_fast, is_first_failure, values, CollectionError, CollectionResult, ErrorView,
};
use crate::record::{
    Direction, OrderBy, OrderValue, PointId, Record, ScrollRequest, ScrollResult,
    WithPayloadInterface, WithVector,
};

verus! {

/// What to ask every selected shard for, to serve one scroll request.
#[derive(Debug, Clone, PartialEq, Eq)]
pub struct ScrollPlan {
    pub offset: Option<PointId>,
    /// How many points to fetch from each shard, and to keep of them all: one
    /// more than the page size when scrolling by id, the page size otherwise.
    pub limit: u64,
    pub with_payload: WithPayloadInterface,
    pub with_vector: WithVector,
    pub order_by: Option<OrderBy>,
}

/// The text of the error for an `order_by` key without a range index.
pub open spec fn no_range_index_text(key: Seq<char>) -> Seq<char> {
    "No range index for `order_by` key: "@ + key
        + ". Please create one to use `order_by`. Integer and float payloads can have range indexes, see https://qdrant.tech/documentation/concepts/indexing/#payload-index."@
}

/// The text of the error for an `offset` beside an `order_by`.
pub open spec fn offset_with_order_by_text() -> Seq<char> {
    "Cannot use an `offset` when using `order_by`. The alternative for paging is to use `order_by.start_from` and a filter to exclude the IDs that you've already seen for the `order_by.start_from` value"@
}

/// The text of the error for a page size of zero.
pub open spec fn zero_limit_text() -> Seq<char> {
    "Limit cannot be 0"@
}

/// Whether `sorted` holds the records of `all`, each as often as `all` does,
/// in ascending order of id.
pub open spec fn arranged_by_id<P, V>(sorted: Seq<Record<P, V>>, all: Seq<Record<P, V>>) -> bool {
    sorted.to_multiset() == all.to_multiset() && sorted_by_id(sorted)
}

/// Whether `page` is cut from `sorted` as a scroll by id cuts it, where
/// `limit` is one more than the page size: the page holds the first records,
/// one fewer than `limit`; the record after them, if there is one, is where
/// the next page starts.
pub open spec fn cut_by_id<P, V>(page: ScrollResult<P, V>, sorted: Seq<Record<P, V>>, limit: u64) -> bool {
    if sorted.len() < limit {
        page.points@ == sorted && page.next_page_offset is None
    } else {
        page.points@ == sorted.take(limit - 1) && page.next_page_offset == Some(
            sorted[limit - 1].id,
        )
    }
}

/// Whether `page` is a page of a scroll by id over the records `all`.
pub open spec fn is_page_by_id<P, V>(page: ScrollResult<P, V>, all: Seq<Record<P, V>>, limit: u64) -> bool {
    exists|sorted: Seq<Record<P, V>>| #[trigger]
        arranged_by_id(sorted, all) && cut_by_id(page, sorted, limit)
}

/// Whether `merged` holds the items of `all`, each as often as `all` does, in
/// the order that `direction` asks for.
pub open spec fn arranged_by_order<T>(
    merged: Seq<(OrderValue, T)>,
    all: Seq<(OrderValue, T)>,
    direction: Direction,
) -> bool {
    merged.to_multiset() == all.to_multiset() && ordered(direction, merged)
}

/// The records of the first `limit` items, or of all where there are fewer.
pub open spec fn first_records<P, V>(merged: Seq<(OrderValue, Record<P, V>)>, limit: u64) -> Seq<
    Record<P, V>,
> {
    let kept = if merged.len() <= limit {
        merged
    } else {
        merged.take(limit as int)
    };
    kept.map_values(|item: (OrderValue, Record<P, V>)| item.1)
}

/// Whether `page` is a page of an ordered scroll over the items `all`.
pub open spec fn is_page_by_order<P, V>(
    page: ScrollResult<P, V>,
    all: Seq<(OrderValue, Record<P, V>)>,
    direction: Direction,
    limit: u64,
) -> bool {
    &&& page.next_page_offset is None
    &&& exists|merged: Seq<(OrderValue, Record<P, V>)>| #[trigger]
        arranged_by_order(merged, all, direction) && page.points@ == first_records(merged, limit)
}

/// The order values of the items.
pub open spec fn order_values<T>(items: Seq<(OrderValue, T)>) -> Seq<OrderValue> {
    items.map_values(|item: (OrderValue, T)| item.0)
}

/// An ordered scroll is ordered over all shards: the records of a page can
/// be given the order values that they came with, one each, and those
/// values then stand in the direction asked for.
pub proof fn law_ordered_page_is_ordered<P, V>(
    page: ScrollResult<P, V>,
    all: Seq<(OrderValue, Record<P, V>)>,
    direction: Direction,
    limit: u64,
)
    requires
        is_page_by_order(page, all, direction, limit),
    ensures
        page.next_page_offset is None,
        page.points@.len() <= limit,
        page.points@.len() <= all.len(),
        exists|values: Seq<OrderValue>|
            {
                &&& values.len() == page.points@.len()
                &&& forall|i: int|
                    0 <= i < values.len() ==> all.contains((#[trigger] values[i], page.points@[i]))
                &&& forall|i: int, j: int|
                    0 <= i <= j < values.len() ==> direction.admits(
                        #[trigger] values[i],
                        #[trigger] values[j],
                    )
            },
{
    broadcast use vstd::seq_lib::group_to_multiset_ensures;

    let merged = choose|merged: Seq<(OrderValue, Record<P, V>)>| #[trigger]
        arranged_by_order(merged, all, direction) && page.points@ == first_records(merged, limit);
    let kept = if merged.len() <= limit {
        merged
    } else {
        merged.take(limit as int)
    };
    let values = order_values(kept);
    assert(merged.len() == merged.to_multiset().len());
    assert(all.len() == all.to_multiset().len());
    assert forall|i: int| 0 <= i < values.len() implies all.contains(
        (#[trigger] values[i], page.points@[i]),
    ) by {
        assert(kept[i] == merged[i]);
        assert(merged.contains(merged[i]));
        assert(merged.to_multiset().count(merged[i]) > 0);
        assert(all.contains(merged[i]));
        assert((values[i], page.points@[i]) == merged[i]);
    }
    assert forall|i: int, j: int| 0 <= i <= j < values.len() implies direction.admits(
        #[trigger] values[i],
        #[trigger] values[j],
    ) by {
        assert(kept[i] == merged[i]);
        assert(kept[j] == merged[j]);
        assert(direction.admits(merged[i].0, merged[j].0));
    }
}

impl Collection {
    /// A scroll that is ordered by a key without a range index is turned
    /// down, whatever else it asks for, with a `BadRequest` that names the
    /// key.
    pub proof fn law_order_by_needs_a_range_index(self, request: ScrollRequest)
        requires
            request.order_by is Some,
            !self.payload_index_schema.spec_has_range_index(request.order_by->Some_0.key@),
        ensures
            self.scroll_rejection(request) == Some(
                ErrorView::BadRequest {
                    description: no_range_index_text(request.order_by->Some_0.key@),
                },
            ),
    {
    }

    /// A scroll that is ordered by a key with a range index and names an
    /// offset is turned down with a `BadInput`.
    pub proof fn law_order_by_excludes_offset(self, request: ScrollRequest)
        requires
            request.order_by is Some,
            request.offset is Some,
            self.payload_index_schema.spec_has_range_index(request.order_by->Some_0.key@),
        ensures
            self.scroll_rejection(request) == Some(
                ErrorView::BadInput { description: offset_with_order_by_text() },
            ),
    {
    }

    /// Why a scroll request is turned down, if it is. The checks are made in
    /// this order: the `order_by` key has a range index; no `offset` stands
    /// beside an `order_by`; the page size is not zero.
    pub open spec fn scroll_rejection(self, request: ScrollRequest) -> Option<ErrorView> {
        if request.order_by is Some && !self.payload_index_schema.spec_has_range_index(
            request.order_by->Some_0.key@,
        ) {
            Some(
                ErrorView::BadRequest {
                    description: no_range_index_text(request.order_by->Some_0.key@),
                },
            )
        } else if request.order_by is Some && request.offset is Some {
            Some(ErrorView::BadInput { description: offset_with_order_by_text() })
        } else if request.page_size() == 0 {
            Some(ErrorView::BadRequest { description: zero_limit_text() })
        } else {
            None
        }
    }

    /// How many points a request that is not turned down fetches from each
    /// shard. A scroll by id fetches one more than the page size: the extra
    /// point is where the next page starts.
    pub open spec fn fetch_limit(request: ScrollRequest) -> int {
        if request.order_by is None {
            request.page_size() + 1
        } else {
            request.page_size() as int
        }
    }

    /// Checks a scroll request and says what to ask the selected shards for.
    ///
    /// The request is turned down exactly when `scroll_rejection` names an
    /// error, and with that error.
    pub fn scroll_by(&self, request: ScrollRequest) -> (planned: CollectionResult<ScrollPlan>)
        requires
            Self::fetch_limit(request) <= u64::MAX,
        ensures
            match self.scroll_rejection(request) {
                Some(why) => planned is Err && planned->Err_0@ == why,
                None => planned == Ok::<ScrollPlan, CollectionError>(
                    ScrollPlan {
                        offset: request.offset,
                        limit: Self::fetch_limit(request) as u64,
                        with_payload: request.payload_choice(),
                        with_vector: request.with_vector,
                        order_by: request.order_by,
                    },
                ),
            },
    {
        let ScrollRequest { offset, limit, with_payload, with_vector, order_by } = request;
        let mut limit: u64 = match limit {
            Some(limit) => limit,
            None => crate::record::DEFAULT_SCROLL_LIMIT,
        };
        let with_payload = match with_payload {
            Some(choice) => choice,
            None => WithPayloadInterface::Bool(true),
        };
        if let Some(order_by) = &order_by {
            if !self.payload_index_schema.has_range_index(&order_by.key) {
                let description = String::from_str("No range index for `order_by` key: ").concat(
                    order_by.key.as_str(),
                ).concat(
                    ". Please create one to use `order_by`. Integer and float payloads can have range indexes, see https://qdrant.tech/documentation/concepts/indexing/#payload-index.",
                );
                return Err(CollectionError::bad_request(description));
            }
            if offset.is_some() {
                return Err(
                    CollectionError::bad_input(
                        String::from_str(
                            "Cannot use an `offset` when using `order_by`. The alternative for paging is to use `order_by.start_from` and a filter to exclude the IDs that you've already seen for the `order_by.start_from` value",
                        ),
                    ),
                );
            }
        }
        if limit == 0 {
            return Err(CollectionError::bad_request(String::from_str("Limit cannot be 0")));
        }
        if order_by.is_none() {
            limit = limit + 1;
        }
        Ok(ScrollPlan { offset, limit, with_payload, with_vector, order_by })
    }

    /// Makes one page of a scroll by id out of what the selected shards
    /// answered. `limit` is the limit of the plan: one more than the page
    /// size.
    ///
    /// If a shard failed, the scroll fails with the first failure. Otherwise
    /// the records of all shards, each with the key of its shard, are sorted
    /// by id and the first `limit` are kept. If that leaves fewer than
    /// `limit`, this is the last page. Otherwise the last record that was
    /// kept is taken off again, and its id is where the next page starts.
    pub fn scroll_page_by_id<P, V>(
        answers: Vec<CollectionResult<ShardAnswer<Record<P, V>>>>,
        limit: u64,
    ) -> (page: CollectionResult<ScrollResult<P, V>>)
        requires
            limit >= 1,
        ensures
            forall|at: int|
                is_first_failure(answers@, at) ==> page is Err && page->Err_0
                    == answers@[at]->Err_0,
            all_ok(answers@) ==> page is Ok && is_page_by_id(
                page->Ok_0,
                all_stamped(values(answers@)),
                limit,
            ),
    {
        let answers = match fail_fast(answers) {
            Ok(answers) => answers,
            Err(failure) => {
                return Err(failure);
            },
        };
        let ghost all = all_stamped(answers@);
        let mut points = gather_sorted_by_id(stamp_answers(answers));
        let ghost sorted = points@;
        if points.len() as u64 > limit {
            points.truncate(limit as usize);
        }
        let next_page_offset = if (points.len() as u64) < limit {
            None
        } else {
            let extra = points.pop().unwrap();
            Some(extra.id)
        };
        let page = ScrollResult { points, next_page_offset };
        proof {
            assert(arranged_by_id(sorted, all));
            if sorted.len() < limit {
                assert(page.points@ =~= sorted);
            } else {
                assert(page.points@ =~= sorted.take(limit - 1));
            }
        }
        Ok(page)
    }

    /// Makes one page of an ordered scroll out of what the selected shards
    /// answered.
    ///
    /// If a shard failed, the scroll fails with the first failure. Otherwise
    /// the page holds the records of all shards, each with the key of its
    /// shard, in the order that `direction` asks for, and of those the first
    /// `limit`. An ordered scroll names no next page.
    pub fn scroll_page_by_order<P, V>(
        answers: Vec<CollectionResult<ShardAnswer<(OrderValue, Record<P, V>)>>>,
        direction: Direction,
        limit: u64,
    ) -> (page: CollectionResult<ScrollResult<P, V>>)
        ensures
            forall|at: int|
                is_first_failure(answers@, at) ==> page is Err && page->Err_0
                    == answers@[at]->Err_0,
            all_ok(answers@) ==> page is Ok && is_page_by_order(
                page->Ok_0,
                all_stamped_runs(values(answers@)),
                direction,
                limit,
            ),
    {
        let answers = match fail_fast(answers) {
            Ok(answers) => answers,
            Err(failure) => {
                return Err(failure);
            },
        };
        let ghost all = all_stamped_runs(answers@);
        let mut merged = merge_by_order_value(stamp_runs(answers), direction);
        let ghost whole = merged@;
        if merged.len() as u64 > limit {
            merged.truncate(limit as usize);
        }
        let ghost kept = merged@;
        let mut points: Vec<Record<P, V>> = Vec::new();
        for item in it: merged
            invariant
                it.seq() == kept,
                points@ == kept.take(it.index() as int).map_values(
                    |item: (OrderValue, Record<P, V>)| item.1,
                ),
        {
            proof {
                assert(kept.take(it.index() + 1).map_values(
                    |item: (OrderValue, Record<P, V>)| item.1,
                ) =~= kept.take(it.index() as int).map_values(
                    |item: (OrderValue, Record<P, V>)| item.1,
                ).push(item.1));
            }
            points.push(item.1);
        }
        let page = ScrollResult { points, next_page_offset: None };
        proof {
            assert(kept.take(kept.len() as int) == kept);
            assert(arranged_by_order(whole, all, direction));
            assert(page.points@ == first_records(whole, limit));
        }
        Ok(page)
    }
}

} // verus!
