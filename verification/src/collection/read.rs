//! Gathering what the selected shards answer to a read: every record learns
//! the key of its shard, and the answers are put together.

use vstd::prelude::*;
use crate::collection::merge::{gather, gathered};
use crate::collection::Collection;
use crate::error::{all_ok, fail_fast, is_first_failure, values, CollectionError, CollectionResult};
use crate::record::{CountResult, OrderValue, Record};
use crate::shard::ShardKey;

verus! {

/// What one shard answered to a read, with the key under which the shard
/// holder has that shard, if it has it under one.
#[derive(Debug, Clone, PartialEq)]
pub struct ShardAnswer<T> {
    pub items: Vec<T>,
    pub shard_key: Option<ShardKey>,
}

/// The record as it is handed on: with the key of its shard, where the shard
/// has one, and as the shard sent it, where it has none.
pub open spec fn stamped<P, V>(record: Record<P, V>, shard_key: Option<ShardKey>) -> Record<P, V> {
    match shard_key {
        Some(key) => Record { shard_key: Some(key), ..record },
        None => record,
    }
}

/// The records of one shard as they are handed on.
pub open spec fn stamped_records<P, V>(answer: ShardAnswer<Record<P, V>>) -> Seq<Record<P, V>> {
    answer.items@.map_values(|record: Record<P, V>| stamped(record, answer.shard_key))
}

/// The records of one shard as they are handed on, each with the value that
/// it is ordered by.
pub open spec fn stamped_run<P, V>(answer: ShardAnswer<(OrderValue, Record<P, V>)>) -> Seq<
    (OrderValue, Record<P, V>),
> {
    answer.items@.map_values(
        |item: (OrderValue, Record<P, V>)| (item.0, stamped(item.1, answer.shard_key)),
    )
}

/// The records of all shards as they are handed on, shard after shard.
pub open spec fn all_stamped<P, V>(answers: Seq<ShardAnswer<Record<P, V>>>) -> Seq<Record<P, V>> {
    answers.map_values(|answer: ShardAnswer<Record<P, V>>| stamped_records(answer)).flatten()
}

/// The records of all shards as they are handed on, each with the value that
/// it is ordered by, shard after shard.
pub open spec fn all_stamped_runs<P, V>(answers: Seq<ShardAnswer<(OrderValue, Record<P, V>)>>) -> Seq<
    (OrderValue, Record<P, V>),
> {
    answers.map_values(|answer: ShardAnswer<(OrderValue, Record<P, V>)>| stamped_run(answer)).flatten()
}

/// The sum of the counts.
pub open spec fn total_count(responses: Seq<CountResult>) -> int
    decreases responses.len(),
{
    if responses.len() == 0 {
        0
    } else {
        total_count(responses.drop_last()) + responses.last().count
    }
}

/// The sum over a part of the responses is no more than the sum over all.
pub proof fn lemma_total_count_grows(responses: Seq<CountResult>, upto: int)
    requires
        0 <= upto <= responses.len(),
    ensures
        0 <= total_count(responses.take(upto)) <= total_count(responses),
    decreases responses.len(),
{
    if upto == responses.len() {
        assert(responses.take(upto) == responses);
        if responses.len() > 0 {
            lemma_total_count_grows(responses.drop_last(), upto - 1);
            assert(responses.drop_last().take(upto - 1) == responses.drop_last());
        }
    } else {
        lemma_total_count_grows(responses.drop_last(), upto);
        assert(responses.drop_last().take(upto) == responses.take(upto));
    }
}

/// The sum over two lots of responses is the sum of their sums.
pub proof fn law_count_is_additive(one: Seq<CountResult>, other: Seq<CountResult>)
    ensures
        total_count(one + other) == total_count(one) + total_count(other),
    decreases other.len(),
{
    if other.len() == 0 {
        assert(one + other == one);
    } else {
        assert((one + other).drop_last() == one + other.drop_last());
        law_count_is_additive(one, other.drop_last());
    }
}

/// The sum does not depend on the order in which the shards answer: two
/// sequences that hold the same responses, each as often, add up to the same.
pub proof fn law_count_ignores_order(one: Seq<CountResult>, other: Seq<CountResult>)
    requires
        one.to_multiset() == other.to_multiset(),
    ensures
        total_count(one) == total_count(other),
    decreases one.len(),
{
    broadcast use vstd::seq_lib::group_to_multiset_ensures;

    assert(one.len() == one.to_multiset().len());
    assert(other.len() == other.to_multiset().len());
    if one.len() > 0 {
        let last = one.last();
        assert(one.contains(last));
        assert(other.to_multiset().count(last) > 0);
        assert(other.contains(last));
        let at = choose|at: int| 0 <= at < other.len() && other[at] == last;
        assert(one.drop_last() == one.remove(one.len() - 1));
        assert(one.drop_last().to_multiset() == other.remove(at).to_multiset());
        law_count_ignores_order(one.drop_last(), other.remove(at));
        assert(other == other.take(at) + seq![last] + other.skip(at + 1));
        assert(other.remove(at) == other.take(at) + other.skip(at + 1));
        law_count_is_additive(other.take(at) + seq![last], other.skip(at + 1));
        law_count_is_additive(other.take(at), seq![last]);
        law_count_is_additive(other.take(at), other.skip(at + 1));
        assert(seq![last].drop_last() == Seq::<CountResult>::empty());
        assert(total_count(seq![last]) == last.count) by {
            reveal_with_fuel(total_count, 2);
        }
    }
}

/// A record is handed on with the key of the shard that it came from: with
/// that key where the shard holder has the shard under one, and, as shards
/// leave the key empty, with none where it has not. Nothing else of the
/// record changes.
pub proof fn law_record_carries_shard_key<P, V>(answer: ShardAnswer<Record<P, V>>, at: int)
    requires
        0 <= at < answer.items@.len(),
        answer.items@[at].shard_key is None,
    ensures
        stamped_records(answer)[at].shard_key == answer.shard_key,
        stamped_records(answer)[at].id == answer.items@[at].id,
        stamped_records(answer)[at].payload == answer.items@[at].payload,
        stamped_records(answer)[at].vector == answer.items@[at].vector,
{
}

/// Every record that is handed on came from one of the shards, and carries
/// what `stamped` makes of it with the key of that shard.
pub proof fn law_every_record_has_its_shard<P, V>(
    answers: Seq<ShardAnswer<Record<P, V>>>,
    record: Record<P, V>,
)
    requires
        all_stamped(answers).contains(record),
    ensures
        exists|shard: int, at: int|
            0 <= shard < answers.len() && 0 <= at < answers[shard].items@.len() && record
                == stamped(#[trigger] answers[shard].items@[at], answers[shard].shard_key),
{
    let parts = answers.map_values(|answer: ShardAnswer<Record<P, V>>| stamped_records(answer));
    crate::collection::merge::lemma_flatten_contains(parts, record);
    let shard = choose|shard: int|
        0 <= shard < parts.len() && (#[trigger] parts[shard]).contains(record);
    let at = choose|at: int| 0 <= at < parts[shard].len() && parts[shard][at] == record;
    assert(record == stamped(answers[shard].items@[at], answers[shard].shard_key));
}

/// Writes the key of their shard into the records that the shard answered
/// with. Where the shard has no key the records stay as they are.
pub fn stamp_shard_key<P, V>(answer: ShardAnswer<Record<P, V>>) -> (records: Vec<Record<P, V>>)
    ensures
        records@ == stamped_records(answer),
{
    let ShardAnswer { items, shard_key } = answer;
    let mut records = items;
    match &shard_key {
        None => {
            assert(records@ =~= stamped_records(answer));
        },
        Some(key) => {
            let mut at: usize = 0;
            while at < records.len()
                invariant
                    at <= records@.len(),
                    records@.len() == answer.items@.len(),
                    shard_key == answer.shard_key,
                    shard_key == Some(*key),
                    forall|i: int|
                        0 <= i < at ==> (#[trigger] records@[i]) == stamped(
                            answer.items@[i],
                            shard_key,
                        ),
                    forall|i: int| at <= i < records@.len() ==> (#[trigger] records@[i]) == answer.items@[i],
                decreases records@.len() - at,
            {
                records[at].shard_key = Some(key.duplicate());
                at = at + 1;
            }
            assert(records@ =~= stamped_records(answer));
        },
    }
    records
}

/// Writes the key of their shard into the records that the shard answered an
/// ordered scroll with. Where the shard has no key the records stay as they
/// are.
pub fn stamp_shard_key_in_run<P, V>(answer: ShardAnswer<(OrderValue, Record<P, V>)>) -> (run: Vec<
    (OrderValue, Record<P, V>),
>)
    ensures
        run@ == stamped_run(answer),
{
    let ShardAnswer { items, shard_key } = answer;
    let mut run = items;
    match &shard_key {
        None => {
            assert(run@ =~= stamped_run(answer));
        },
        Some(key) => {
            let mut at: usize = 0;
            while at < run.len()
                invariant
                    at <= run@.len(),
                    run@.len() == answer.items@.len(),
                    shard_key == answer.shard_key,
                    shard_key == Some(*key),
                    forall|i: int|
                        0 <= i < at ==> (#[trigger] run@[i]) == (
                            answer.items@[i].0,
                            stamped(answer.items@[i].1, shard_key),
                        ),
                    forall|i: int| at <= i < run@.len() ==> (#[trigger] run@[i]) == answer.items@[i],
                decreases run@.len() - at,
            {
                run[at].1.shard_key = Some(key.duplicate());
                at = at + 1;
            }
            assert(run@ =~= stamped_run(answer));
        },
    }
    run
}

/// Writes the key of its shard into every record of every answer.
pub fn stamp_answers<P, V>(answers: Vec<ShardAnswer<Record<P, V>>>) -> (shards: Vec<
    Vec<Record<P, V>>,
>)
    ensures
        shards@.len() == answers@.len(),
        forall|i: int| 0 <= i < answers@.len() ==> (#[trigger] shards@[i])@ == stamped_records(answers@[i]),
        gathered(shards@) == all_stamped(answers@),
{
    let mut shards: Vec<Vec<Record<P, V>>> = Vec::new();
    let ghost total = answers@;
    for answer in it: answers
        invariant
            it.seq() == total,
            shards@.len() == it.index(),
            forall|i: int| 0 <= i < it.index() ==> (#[trigger] shards@[i])@ == stamped_records(total[i]),
    {
        let records = stamp_shard_key(answer);
        shards.push(records);
    }
    proof {
        assert(shards@.map_values(|shard: Vec<Record<P, V>>| shard@) =~= total.map_values(
            |answer: ShardAnswer<Record<P, V>>| stamped_records(answer),
        ));
    }
    shards
}

/// Writes the key of its shard into every record of every answer to an
/// ordered scroll.
pub fn stamp_runs<P, V>(answers: Vec<ShardAnswer<(OrderValue, Record<P, V>)>>) -> (runs: Vec<
    Vec<(OrderValue, Record<P, V>)>,
>)
    ensures
        runs@.len() == answers@.len(),
        forall|i: int| 0 <= i < answers@.len() ==> (#[trigger] runs@[i])@ == stamped_run(answers@[i]),
        gathered(runs@) == all_stamped_runs(answers@),
{
    let mut runs: Vec<Vec<(OrderValue, Record<P, V>)>> = Vec::new();
    let ghost total = answers@;
    for answer in it: answers
        invariant
            it.seq() == total,
            runs@.len() == it.index(),
            forall|i: int| 0 <= i < it.index() ==> (#[trigger] runs@[i])@ == stamped_run(total[i]),
    {
        let run = stamp_shard_key_in_run(answer);
        runs.push(run);
    }
    proof {
        assert(runs@.map_values(|run: Vec<(OrderValue, Record<P, V>)>| run@) =~= total.map_values(
            |answer: ShardAnswer<(OrderValue, Record<P, V>)>| stamped_run(answer),
        ));
    }
    runs
}

impl Collection {
    /// Puts together what the selected shards answered to a retrieve.
    ///
    /// If a shard failed, the retrieve fails with the first failure.
    /// Otherwise it gives the records of all shards, shard after shard, each
    /// with the key of its shard. Nothing is sorted and nothing is dropped.
    pub fn retrieve<P, V>(answers: Vec<CollectionResult<ShardAnswer<Record<P, V>>>>) -> (records:
        CollectionResult<Vec<Record<P, V>>>)
        ensures
            forall|at: int|
                is_first_failure(answers@, at) ==> records is Err && records->Err_0
                    == answers@[at]->Err_0,
            all_ok(answers@) ==> records is Ok && records->Ok_0@ == all_stamped(values(answers@)),
    {
        match fail_fast(answers) {
            Ok(answers) => Ok(gather(stamp_answers(answers))),
            Err(failure) => Err(failure),
        }
    }

    /// Adds up what the selected shards answered to a count.
    ///
    /// If a shard failed, the count fails with the first failure. Otherwise
    /// it is the sum of the counts of all shards.
    pub fn count(responses: Vec<CollectionResult<CountResult>>) -> (counted: CollectionResult<
        CountResult,
    >)
        requires
            all_ok(responses@) ==> total_count(values(responses@)) <= u64::MAX,
        ensures
            forall|at: int|
                is_first_failure(responses@, at) ==> counted == Err::<CountResult, CollectionError>(
                    responses@[at]->Err_0,
                ),
            all_ok(responses@) ==> counted == Ok::<CountResult, CollectionError>(
                CountResult { count: total_count(values(responses@)) as u64 },
            ),
    {
        let counts = match fail_fast(responses) {
            Ok(counts) => counts,
            Err(failure) => {
                return Err(failure);
            },
        };
        let mut count: u64 = 0;
        let mut at: usize = 0;
        while at < counts.len()
            invariant
                at <= counts@.len(),
                count == total_count(counts@.take(at as int)),
                total_count(counts@) <= u64::MAX,
            decreases counts@.len() - at,
        {
            proof {
                lemma_total_count_grows(counts@, at + 1);
                assert(counts@.take(at + 1).drop_last() == counts@.take(at as int));
            }
            count = count + counts[at].count;
            at = at + 1;
        }
        proof {
            assert(counts@.take(at as int) == counts@);
        }
        Ok(CountResult { count })
    }
}

} // verus!
