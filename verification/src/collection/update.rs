//! Writes: where an update goes, and what its caller is told once the shards
//! have answered.

use vstd::prelude::*;
use vstd::string::StringExecFns;
use validator::ValidationErrors;
use crate::collection::Collection;
use crate::error::{
    all_ok, fail_fast, is_first_failure, values, CollectionError, CollectionResult, ErrorView,
};
use crate::record::UpdateResult;
use crate::shard::{ShardId, WriteOrdering};

verus! {

/// `validator::ValidationErrors`: what validating an update reports when the
/// update is not valid. Trusted as a type only: a value of it is carried and
/// never looked into.
#[verifier::external_type_specification]
#[verifier::external_body]
pub struct ExValidationErrors(validator::ValidationErrors);

/// The text that `validator::ValidationErrors` displays as, by its
/// `to_string`.
///
/// Trusted, and nothing is claimed of the text: the errors are kept in a hash
/// map, and the text lists them in the order in which that map is walked.
#[verifier::external_body]
fn validation_errors_text(errors: &ValidationErrors) -> (text: String) {
    errors.to_string()
}

/// How an update that a peer sent is applied.
#[derive(Debug, Clone, Copy, PartialEq, Eq)]
pub enum PeerRoute {
    /// The shard is not here: nothing is applied.
    NoShard,
    /// Apply on the local replica of the shard.
    Local,
    /// Hand the update to the replica set, with the ordering asked for.
    WithConsistency,
}

/// What came of applying an update that a peer sent for one shard.
#[derive(Debug, PartialEq, Eq)]
pub enum PeerOutcome {
    /// The shard is not here, so nothing was applied.
    NoShard,
    /// What the local replica answered; nothing if this node has no local
    /// copy of the shard.
    Local(CollectionResult<Option<UpdateResult>>),
    /// What the replica set answered.
    WithConsistency(CollectionResult<UpdateResult>),
}

/// The decimal digit for a number below ten.
pub open spec fn digit(value: nat) -> char {
    if value == 0 {
        '0'
    } else if value == 1 {
        '1'
    } else if value == 2 {
        '2'
    } else if value == 3 {
        '3'
    } else if value == 4 {
        '4'
    } else if value == 5 {
        '5'
    } else if value == 6 {
        '6'
    } else if value == 7 {
        '7'
    } else if value == 8 {
        '8'
    } else {
        '9'
    }
}

/// A number written in decimal, without leading zeros.
pub open spec fn decimal_text(number: nat) -> Seq<char>
    decreases number,
{
    if number < 10 {
        seq![digit(number)]
    } else {
        decimal_text(number / 10).push(digit(number % 10))
    }
}

/// The text of the error for an update to a shard that is not here.
pub open spec fn no_target_shard_text(shard_id: ShardId) -> Seq<char> {
    "No target shard "@ + decimal_text(shard_id as nat) + " found for update"@
}

/// The text of the error for an update that touches no shard.
pub open spec fn empty_update_text() -> Seq<char> {
    "Empty update request"@
}

/// How many of the results are failures.
pub open spec fn failures<T>(results: Seq<CollectionResult<T>>) -> nat
    decreases results.len(),
{
    if results.len() == 0 {
        0
    } else {
        failures(results.drop_last()) + if results.last() is Err {
            1nat
        } else {
            0nat
        }
    }
}

/// The number of failures is zero exactly when no result is a failure, and
/// the number of results exactly when every result is one.
pub proof fn law_failures_are_counted<T>(results: Seq<CollectionResult<T>>)
    ensures
        failures(results) <= results.len(),
        failures(results) == 0 <==> all_ok(results),
        failures(results) == results.len() <==> forall|at: int|
            0 <= at < results.len() ==> (#[trigger] results[at]) is Err,
    decreases results.len(),
{
    if results.len() > 0 {
        let before = results.drop_last();
        law_failures_are_counted(before);
        if all_ok(results) {
            assert forall|at: int| 0 <= at < before.len() implies (#[trigger] before[at]) is Ok by {
                assert(results[at] is Ok);
            }
            assert(results[results.len() - 1] is Ok);
        }
        if failures(results) == 0 {
            assert forall|at: int| 0 <= at < results.len() implies (#[trigger] results[at]) is Ok by {
                if at < before.len() {
                    assert(before[at] is Ok);
                }
            }
        }
        if forall|at: int| 0 <= at < results.len() ==> (#[trigger] results[at]) is Err {
            assert forall|at: int| 0 <= at < before.len() implies (#[trigger] before[at]) is Err by {
                assert(results[at] is Err);
            }
            assert(results[results.len() - 1] is Err);
        }
        if failures(results) == results.len() {
            assert forall|at: int| 0 <= at < results.len() implies (#[trigger] results[at]) is Err by {
                if at < before.len() {
                    assert(before[at] is Err);
                }
            }
        }
    }
}

/// Whether the result at `at` is the first that is not empty.
pub open spec fn is_first_some<T>(results: Seq<Option<T>>, at: int) -> bool {
    &&& 0 <= at < results.len()
    &&& results[at] is Some
    &&& forall|before: int| 0 <= before < at ==> (#[trigger] results[before]) is None
}

/// One decimal digit as a string.
fn digit_str(value: u32) -> (text: &'static str)
    requires
        value < 10,
    ensures
        text@ == seq![digit(value as nat)],
{
    proof {
        reveal_strlit("0");
        reveal_strlit("1");
        reveal_strlit("2");
        reveal_strlit("3");
        reveal_strlit("4");
        reveal_strlit("5");
        reveal_strlit("6");
        reveal_strlit("7");
        reveal_strlit("8");
        reveal_strlit("9");
    }
    let text = if value == 0 {
        "0"
    } else if value == 1 {
        "1"
    } else if value == 2 {
        "2"
    } else if value == 3 {
        "3"
    } else if value == 4 {
        "4"
    } else if value == 5 {
        "5"
    } else if value == 6 {
        "6"
    } else if value == 7 {
        "7"
    } else if value == 8 {
        "8"
    } else {
        "9"
    };
    assert(text@ =~= seq![digit(value as nat)]);
    text
}

/// Writes a number in decimal.
pub fn decimal(number: u32) -> (text: String)
    ensures
        text@ == decimal_text(number as nat),
    decreases number,
{
    if number < 10 {
        String::from_str(digit_str(number))
    } else {
        let text = decimal(number / 10).concat(digit_str(number % 10));
        assert(text@ =~= decimal_text((number / 10) as nat).push(digit((number % 10) as nat)));
        text
    }
}

impl Collection {
    /// Turns down an update that is not valid, with a `BadRequest` that
    /// carries what the validation reported.
    pub fn validated(validation: Result<(), ValidationErrors>) -> (checked: CollectionResult<()>)
        ensures
            validation is Ok ==> checked is Ok,
            validation is Err ==> checked is Err && checked->Err_0 is BadRequest,
    {
        match validation {
            Ok(()) => Ok(()),
            Err(errors) => Err(CollectionError::bad_request(validation_errors_text(&errors))),
        }
    }

    /// What an update of all local shards comes to, given what every local
    /// shard answered: the first failure, if a shard failed; otherwise the
    /// first answer that is not empty, or nothing if all are empty.
    pub fn update_all_local(results: Vec<CollectionResult<Option<UpdateResult>>>) -> (outcome:
        CollectionResult<Option<UpdateResult>>)
        ensures
            forall|at: int|
                is_first_failure(results@, at) ==> outcome == Err::<
                    Option<UpdateResult>,
                    CollectionError,
                >(results@[at]->Err_0),
            all_ok(results@) ==> outcome is Ok,
            all_ok(results@) ==> (outcome->Ok_0 is None <==> forall|at: int|
                0 <= at < results@.len() ==> (#[trigger] values(results@)[at]) is None),
            all_ok(results@) ==> forall|at: int|
                is_first_some(values(results@), at) ==> outcome->Ok_0 == values(results@)[at],
    {
        let answers = match fail_fast(results) {
            Ok(answers) => answers,
            Err(failure) => {
                proof {
                    if all_ok(results@) {
                        assert forall|at: int| !is_first_failure(results@, at) by {
                            if 0 <= at < results@.len() {
                                assert(results@[at] is Ok);
                            }
                        }
                    }
                }
                return Err(failure);
            },
        };
        proof {
            assert forall|at: int| !is_first_failure(results@, at) by {
                if 0 <= at < results@.len() {
                    assert(results@[at] is Ok);
                }
            }
        }
        let mut at: usize = 0;
        while at < answers.len()
            invariant
                at <= answers@.len(),
                all_ok(results@),
                answers@ == values(results@),
                forall|other: int| !is_first_failure(results@, other),
                forall|before: int| 0 <= before < at ==> (#[trigger] answers@[before]) is None,
            decreases answers@.len() - at,
        {
            if answers[at].is_some() {
                assert(is_first_some(answers@, at as int));
                assert forall|other: int| is_first_some(answers@, other) implies other == at by {
                    if other < at {
                        assert(answers@[other] is None);
                    } else if other > at {
                        assert(answers@[at as int] is Some);
                    }
                }
                return Ok(answers[at]);
            }
            at = at + 1;
        }
        assert forall|other: int| !is_first_some(answers@, other) by {
            if 0 <= other < answers@.len() {
                assert(answers@[other] is None);
            }
        }
        Ok(None)
    }

    /// How an update that a peer sent for one shard is applied: not at all
    /// where the shard is not here; on the local replica where the ordering
    /// is `Weak`; through the replica set's consistency path otherwise.
    pub fn route_from_peer(shard_found: bool, ordering: WriteOrdering) -> (route: PeerRoute)
        ensures
            !shard_found ==> route == PeerRoute::NoShard,
            shard_found && ordering == WriteOrdering::Weak ==> route == PeerRoute::Local,
            shard_found && ordering != WriteOrdering::Weak ==> route == PeerRoute::WithConsistency,
    {
        if !shard_found {
            PeerRoute::NoShard
        } else {
            match ordering {
                WriteOrdering::Weak => PeerRoute::Local,
                WriteOrdering::Medium | WriteOrdering::Strong => PeerRoute::WithConsistency,
            }
        }
    }

    /// What a peer is told of its update for one shard.
    ///
    /// A shard that is not here, and a shard of which this node has no local
    /// copy, are a `ServiceError` that names the shard. What a replica
    /// answered, failure or not, is handed on as it is.
    pub fn update_from_peer(shard_selection: ShardId, outcome: PeerOutcome) -> (told:
        CollectionResult<UpdateResult>)
        ensures
            match outcome {
                PeerOutcome::NoShard | PeerOutcome::Local(Ok(None)) => told is Err
                    && told->Err_0@ == (ErrorView::ServiceError {
                    error: no_target_shard_text(shard_selection),
                }),
                PeerOutcome::Local(Ok(Some(result))) => told == Ok::<UpdateResult, CollectionError>(
                    result,
                ),
                PeerOutcome::Local(Err(failure)) => told == Err::<UpdateResult, CollectionError>(
                    failure,
                ),
                PeerOutcome::WithConsistency(answer) => told == answer,
            },
    {
        let applied = match outcome {
            PeerOutcome::NoShard => None,
            PeerOutcome::Local(Ok(applied)) => applied,
            PeerOutcome::Local(Err(failure)) => {
                return Err(failure);
            },
            PeerOutcome::WithConsistency(answer) => {
                return answer;
            },
        };
        match applied {
            Some(result) => Ok(result),
            None => {
                let error = String::from_str("No target shard ").concat(
                    decimal(shard_selection).as_str(),
                ).concat(" found for update");
                Err(CollectionError::service_error(error))
            },
        }
    }

    /// What a client is told of its update, once every shard that the update
    /// was split over has answered. `results` holds one answer for each of
    /// those shards, in the order of the split.
    ///
    /// No shard at all: the update was empty, which is a `BadRequest`. No
    /// failure: the last answer. Failures on some shards only: an
    /// `InconsistentShardFailure` with the number of shards, the number of
    /// failures and the first failure. Failures on every shard: the first
    /// failure as it is.
    pub fn update_from_client(results: Vec<CollectionResult<UpdateResult>>) -> (outcome:
        CollectionResult<UpdateResult>)
        requires
            results@.len() <= u32::MAX,
        ensures
            results@.len() == 0 ==> outcome is Err && outcome->Err_0@ == (ErrorView::BadRequest {
                description: empty_update_text(),
            }),
            results@.len() > 0 && failures(results@) == 0 ==> outcome == results@.last(),
            forall|at: int|
                is_first_failure(results@, at) && failures(results@) < results@.len() ==> outcome
                    == Err::<UpdateResult, CollectionError>(
                    CollectionError::InconsistentShardFailure {
                        shards_total: results@.len() as u32,
                        shards_failed: failures(results@) as u32,
                        first_err: Box::new(results@[at]->Err_0),
                    },
                ),
            forall|at: int|
                is_first_failure(results@, at) && failures(results@) == results@.len() ==> outcome
                    == results@[at],
    {
        let mut results = results;
        let ghost given = results@;
        if results.len() == 0 {
            return Err(CollectionError::bad_request(String::from_str("Empty update request")));
        }
        let mut with_error: usize = 0;
        let mut first: usize = results.len();
        let mut at: usize = 0;
        while at < results.len()
            invariant
                results@ == given,
                at <= given.len(),
                with_error == failures(given.take(at as int)),
                with_error <= at,
                with_error == 0 ==> first == given.len(),
                with_error > 0 ==> is_first_failure(given, first as int),
                forall|before: int| 0 <= before < at && with_error == 0 ==> (#[trigger] given[before]) is Ok,
            decreases given.len() - at,
        {
            proof {
                assert(given.take(at + 1).drop_last() == given.take(at as int));
            }
            if results[at].is_err() {
                if with_error == 0 {
                    first = at;
                }
                with_error = with_error + 1;
            }
            at = at + 1;
        }
        proof {
            assert(given.take(at as int) == given);
        }
        let result_len = results.len();
        if with_error > 0 {
            proof {
                assert forall|other: int| is_first_failure(given, other) implies other == first by {
                    if other < first {
                        assert(given[other] is Ok);
                    } else if other > first {
                        assert(given[first as int] is Err);
                    }
                }
            }
            let first_err = results.remove(first);
            if with_error < result_len {
                match first_err {
                    Err(err) => Err(
                        CollectionError::InconsistentShardFailure {
                            shards_total: result_len as u32,
                            shards_failed: with_error as u32,
                            first_err: Box::new(err),
                        },
                    ),
                    Ok(result) => Ok(result),
                }
            } else {
                first_err
            }
        } else {
            proof {
                assert forall|other: int| !is_first_failure(given, other) by {
                    if 0 <= other < given.len() {
                        assert(given[other] is Ok);
                    }
                }
            }
            results.pop().unwrap()
        }
    }
}

} // verus!
