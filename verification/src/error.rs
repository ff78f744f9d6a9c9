//! The errors that request coordination reports.

use vstd::prelude::*;

verus! {

/// Why a request failed.
#[derive(Debug, PartialEq, Eq)]
pub enum CollectionError {
    /// The caller sent input that cannot be used.
    BadInput { description: String },
    /// The request is malformed or asks for something that is not available.
    BadRequest { description: String },
    /// Something that the request names does not exist.
    NotFound { what: String },
    /// An unexpected internal condition.
    ServiceError { error: String },
    /// A write reached several shards and only some of them failed.
    InconsistentShardFailure { shards_total: u32, shards_failed: u32, first_err: Box<CollectionError> },
}

pub type CollectionResult<T> = Result<T, CollectionError>;

/// A `CollectionError` with its texts as character sequences.
pub enum ErrorView {
    BadInput { description: Seq<char> },
    BadRequest { description: Seq<char> },
    NotFound { what: Seq<char> },
    ServiceError { error: Seq<char> },
    InconsistentShardFailure { shards_total: u32, shards_failed: u32, first_err: Box<ErrorView> },
}

impl View for CollectionError {
    type V = ErrorView;

    open spec fn view(&self) -> ErrorView
        decreases self,
    {
        match self {
            CollectionError::BadInput { description } => ErrorView::BadInput {
                description: description@,
            },
            CollectionError::BadRequest { description } => ErrorView::BadRequest {
                description: description@,
            },
            CollectionError::NotFound { what } => ErrorView::NotFound { what: what@ },
            CollectionError::ServiceError { error } => ErrorView::ServiceError { error: error@ },
            CollectionError::InconsistentShardFailure { shards_total, shards_failed, first_err } =>
                ErrorView::InconsistentShardFailure {
                    shards_total: *shards_total,
                    shards_failed: *shards_failed,
                    first_err: Box::new((**first_err)@),
                },
        }
    }
}

/// Whether the result at `at` is the first failure.
pub open spec fn is_first_failure<T>(results: Seq<CollectionResult<T>>, at: int) -> bool {
    &&& 0 <= at < results.len()
    &&& results[at] is Err
    &&& forall|before: int| 0 <= before < at ==> (#[trigger] results[before]) is Ok
}

/// Whether no result is a failure.
pub open spec fn all_ok<T>(results: Seq<CollectionResult<T>>) -> bool {
    forall|at: int| 0 <= at < results.len() ==> (#[trigger] results[at]) is Ok
}

/// What the results hold, where none of them is a failure.
pub open spec fn values<T>(results: Seq<CollectionResult<T>>) -> Seq<T> {
    results.map_values(|result: CollectionResult<T>| result->Ok_0)
}

/// "The first failure" names one result: where not all results are
/// successes, one of them is the first failure, and only one.
pub proof fn law_one_first_failure<T>(results: Seq<CollectionResult<T>>) -> (first: int)
    requires
        !all_ok(results),
    ensures
        is_first_failure(results, first),
        forall|at: int| is_first_failure(results, at) ==> at == first,
    decreases results.len(),
{
    let some = choose|at: int| 0 <= at < results.len() && !((#[trigger] results[at]) is Ok);
    let first = if all_ok(results.take(some)) {
        assert forall|before: int| 0 <= before < some implies (#[trigger] results[before]) is Ok by {
            assert(results.take(some)[before] is Ok);
        }
        some
    } else {
        let first = law_one_first_failure(results.take(some));
        assert(results.take(some)[first] == results[first]);
        assert forall|before: int| 0 <= before < first implies (#[trigger] results[before]) is Ok by {
            assert(results.take(some)[before] is Ok);
        }
        first
    };
    assert forall|at: int| is_first_failure(results, at) implies at == first by {
        if at < first {
            assert(results[at] is Ok);
        } else if first < at {
            assert(results[first] is Ok);
        }
    }
    first
}

/// Fails with the first failure, if there is one; hands out what the results
/// hold otherwise.
///
/// This is how a request that stops at the first shard that fails comes to
/// its answer: the results stand in the order in which they came in.
pub fn fail_fast<T>(results: Vec<CollectionResult<T>>) -> (settled: CollectionResult<Vec<T>>)
    ensures
        all_ok(results@) ==> settled is Ok && settled->Ok_0@ == values(results@),
        !all_ok(results@) ==> settled is Err,
        forall|at: int|
            is_first_failure(results@, at) ==> settled is Err && settled->Err_0
                == results@[at]->Err_0,
{
    let mut held: Vec<T> = Vec::new();
    let ghost total = results@;
    for result in it: results
        invariant
            it.seq() == total,
            all_ok(total.take(it.index() as int)),
            held@ == values(total.take(it.index() as int)),
    {
        let ghost done = total.take(it.index() as int);
        proof {
            assert(total.take(it.index() + 1) == done.push(result));
        }
        match result {
            Ok(value) => {
                proof {
                    assert(values(done.push(result)) =~= values(done).push(value));
                    assert forall|at: int| 0 <= at < done.push(result).len() implies (
                    #[trigger] done.push(result)[at]) is Ok by {
                        if at < done.len() {
                            assert(done[at] is Ok);
                        }
                    }
                }
                held.push(value);
            },
            Err(failure) => {
                proof {
                    assert(total[it.index() as int] is Err);
                    assert forall|before: int| 0 <= before < it.index() implies (
                    #[trigger] total[before]) is Ok by {
                        assert(done[before] is Ok);
                    }
                    assert(is_first_failure(total, it.index() as int));
                    assert forall|at: int| is_first_failure(total, at) implies at == it.index() by {
                        if at < it.index() {
                            assert(total[at] is Ok);
                        } else if it.index() < at {
                            assert(total[it.index() as int] is Ok);
                        }
                    }
                }
                return Err(failure);
            },
        }
    }
    proof {
        assert(total.take(total.len() as int) == total);
        assert forall|at: int| !is_first_failure(total, at) by {
            if 0 <= at < total.len() {
                assert(total[at] is Ok);
            }
        }
    }
    Ok(held)
}

impl CollectionError {
    /// A `BadInput` error with the given text.
    pub fn bad_input(description: String) -> (err: CollectionError)
        ensures
            err == (CollectionError::BadInput { description }),
    {
        CollectionError::BadInput { description }
    }

    /// A `BadRequest` error with the given text.
    pub fn bad_request(description: String) -> (err: CollectionError)
        ensures
            err == (CollectionError::BadRequest { description }),
    {
        CollectionError::BadRequest { description }
    }

    /// A `ServiceError` with the given text.
    pub fn service_error(error: String) -> (err: CollectionError)
        ensures
            err == (CollectionError::ServiceError { error }),
    {
        CollectionError::ServiceError { error }
    }
}

} // verus!
