//! Putting the answers of several shards together: concatenation, sorting by
//! id, and merging runs that are ordered by a payload value.

use vstd::prelude::*;
use vstd::multiset::Multiset;
use itertools::Itertools;
use crate::record::{Direction, OrderValue, Record};

verus! {

/// The items of all shards, shard after shard.
pub open spec fn gathered<T>(shards: Seq<Vec<T>>) -> Seq<T> {
    shards.map_values(|shard: Vec<T>| shard@).flatten()
}

/// Whether the records stand in ascending order of id.
pub open spec fn sorted_by_id<P, V>(records: Seq<Record<P, V>>) -> bool {
    forall|i: int, j: int|
        0 <= i <= j < records.len() ==> (#[trigger] records[i]).id <= (#[trigger] records[j]).id
}

/// Whether the items stand in the order that `direction` asks for: by order
/// value, ascending or descending, equal values in any order.
pub open spec fn ordered<T>(direction: Direction, run: Seq<(OrderValue, T)>) -> bool {
    forall|i: int, j: int|
        0 <= i <= j < run.len() ==> direction.admits((#[trigger] run[i]).0, (#[trigger] run[j]).0)
}

/// Whether every run stands in the order that `direction` asks for.
pub open spec fn all_ordered<T>(direction: Direction, runs: Seq<Vec<(OrderValue, T)>>) -> bool {
    forall|at: int| 0 <= at < runs.len() ==> ordered(direction, (#[trigger] runs[at])@)
}

/// An item is among the concatenated parts exactly when some part holds it.
pub proof fn lemma_flatten_contains<A>(parts: Seq<Seq<A>>, item: A)
    ensures
        parts.flatten().contains(item) <==> exists|part: int|
            0 <= part < parts.len() && (#[trigger] parts[part]).contains(item),
    decreases parts.len(),
{
    if parts.len() > 0 {
        let first = parts.first();
        let rest = parts.drop_first();
        lemma_flatten_contains(rest, item);
        assert(parts.flatten() == first + rest.flatten());
        if parts.flatten().contains(item) {
            let at = choose|at: int| 0 <= at < parts.flatten().len() && parts.flatten()[at] == item;
            if at < first.len() {
                assert(first[at] == item);
                assert(parts[0].contains(item));
            } else {
                assert(rest.flatten()[at - first.len()] == item);
                assert(rest.flatten().contains(item));
                let part = choose|part: int|
                    0 <= part < rest.len() && (#[trigger] rest[part]).contains(item);
                assert(parts[part + 1] == rest[part]);
                assert(parts[part + 1].contains(item));
            }
        }
        if exists|part: int| 0 <= part < parts.len() && (#[trigger] parts[part]).contains(item) {
            let part = choose|part: int|
                0 <= part < parts.len() && (#[trigger] parts[part]).contains(item);
            if part == 0 {
                let at = choose|at: int| 0 <= at < first.len() && first[at] == item;
                assert(parts.flatten()[at] == item);
            } else {
                assert(rest[part - 1] == parts[part]);
                assert(rest[part - 1].contains(item));
                let at = choose|at: int| 0 <= at < rest.flatten().len() && rest.flatten()[at] == item;
                assert(parts.flatten()[first.len() + at] == item);
            }
        }
    }
}

/// Sorts records by id with `itertools::Itertools::sorted_unstable_by_key`.
///
/// Trusted: the result holds the same records, each as often as the input
/// does, in ascending order of id. Records with equal ids may come out in any
/// order.
#[verifier::external_body]
fn sorted_unstable_by_id<P, V>(records: Vec<Record<P, V>>) -> (sorted: Vec<Record<P, V>>)
    ensures
        sorted@.to_multiset() == records@.to_multiset(),
        sorted_by_id(sorted@),
{
    records.into_iter().sorted_unstable_by_key(|record| record.id).collect()
}

/// Merges runs with `itertools::Itertools::kmerge_by`, which is told by
/// `Direction::comes_first` which of two items goes first.
///
/// Trusted: the result holds the items of all runs, each as often as the runs
/// do; and if every run stands in the order that `direction` asks for, so
/// does the result.
#[verifier::external_body]
fn kmerge_by_order_value<T>(runs: Vec<Vec<(OrderValue, T)>>, direction: Direction) -> (merged: Vec<
    (OrderValue, T),
>)
    ensures
        merged@.to_multiset() == gathered(runs@).to_multiset(),
        all_ordered(direction, runs@) ==> ordered(direction, merged@),
{
    runs.into_iter().kmerge_by(|a, b| direction.comes_first(a.0, b.0)).collect()
}

/// Concatenates the answers of the shards, in the order of the shards.
pub fn gather<T>(shards: Vec<Vec<T>>) -> (all: Vec<T>)
    ensures
        all@ == gathered(shards@),
{
    let mut all: Vec<T> = Vec::new();
    let ghost total = shards@;
    for shard in it: shards
        invariant
            it.seq() == total,
            all@ == gathered(total.take(it.index() as int)),
    {
        let mut shard = shard;
        proof {
            let done = total.take(it.index() as int);
            assert(total.take(it.index() + 1) == done.push(shard));
            assert(done.push(shard).map_values(|shard: Vec<T>| shard@) == done.map_values(
                |shard: Vec<T>| shard@,
            ).push(shard@));
            done.map_values(|shard: Vec<T>| shard@).lemma_flatten_push(shard@);
        }
        all.append(&mut shard);
    }
    proof {
        assert(total.take(total.len() as int) == total);
    }
    all
}

/// Gathers the records of all shards and sorts them by id, ascending.
/// Records with equal ids may come out in any order.
pub fn gather_sorted_by_id<P, V>(shards: Vec<Vec<Record<P, V>>>) -> (sorted: Vec<Record<P, V>>)
    ensures
        sorted@.to_multiset() == gathered(shards@).to_multiset(),
        sorted_by_id(sorted@),
{
    sorted_unstable_by_id(gather(shards))
}

/// Whether the run stands in the order that `direction` asks for.
pub fn is_ordered<T>(direction: Direction, run: &Vec<(OrderValue, T)>) -> (yes: bool)
    ensures
        yes == ordered(direction, run@),
{
    let mut at: usize = 1;
    while at < run.len()
        invariant
            1 <= at,
            forall|i: int, j: int|
                0 <= i <= j < at && j < run@.len() ==> direction.admits(
                    (#[trigger] run@[i]).0,
                    (#[trigger] run@[j]).0,
                ),
        decreases run@.len() - at,
    {
        if !direction.comes_first(run[at - 1].0, run[at].0) {
            assert(!direction.admits(run@[at - 1].0, run@[at as int].0));
            return false;
        }
        proof {
            assert forall|i: int, j: int| 0 <= i <= j < at + 1 && j < run@.len() implies direction.admits(
                (#[trigger] run@[i]).0,
                (#[trigger] run@[j]).0,
            ) by {
                if j == at && i < at {
                    assert(direction.admits(run@[i].0, run@[at - 1].0));
                    assert(direction.admits(run@[at - 1].0, run@[at as int].0));
                }
            }
        }
        at = at + 1;
    }
    true
}

/// What `gathered` makes of one more shard.
pub proof fn lemma_gathered_push<T>(shards: Seq<Vec<T>>, shard: Vec<T>)
    ensures
        gathered(shards.push(shard)) == gathered(shards) + shard@,
{
    assert(shards.push(shard).map_values(|shard: Vec<T>| shard@) == shards.map_values(
        |shard: Vec<T>| shard@,
    ).push(shard@));
    shards.map_values(|shard: Vec<T>| shard@).lemma_flatten_push(shard@);
}

/// Merges the runs of all shards into one sequence that stands in the order
/// that `direction` asks for.
///
/// A run that already stands in that order is merged as it is. One that does
/// not is taken apart into its items first, so that the result is ordered
/// whatever the shards sent.
pub fn merge_by_order_value<T>(shards: Vec<Vec<(OrderValue, T)>>, direction: Direction) -> (merged:
    Vec<(OrderValue, T)>)
    ensures
        merged@.to_multiset() == gathered(shards@).to_multiset(),
        ordered(direction, merged@),
{
    let mut runs: Vec<Vec<(OrderValue, T)>> = Vec::new();
    let ghost total = shards@;
    proof {
        assert(gathered(runs@) =~= gathered(total.take(0)));
    }
    for shard in it: shards
        invariant
            it.seq() == total,
            gathered(runs@).to_multiset() == gathered(total.take(it.index() as int)).to_multiset(),
            all_ordered(direction, runs@),
    {
        let ghost done = total.take(it.index() as int);
        proof {
            assert(total.take(it.index() + 1) == done.push(shard));
            lemma_gathered_push(done, shard);
            vstd::seq_lib::lemma_multiset_commutative(gathered(done), shard@);
        }
        if is_ordered(direction, &shard) {
            proof {
                lemma_gathered_push(runs@, shard);
                vstd::seq_lib::lemma_multiset_commutative(gathered(runs@), shard@);
            }
            runs.push(shard);
        } else {
            let ghost before = gathered(runs@).to_multiset();
            let ghost items = shard@;
            proof {
                assert(items.take(0).to_multiset() =~= Multiset::<(OrderValue, T)>::empty()) by {
                    broadcast use vstd::seq_lib::group_to_multiset_ensures;
                }
                assert(before.add(items.take(0).to_multiset()) =~= before);
            }
            for item in each: shard
                invariant
                    each.seq() == items,
                    gathered(runs@).to_multiset() == before.add(
                        items.take(each.index() as int).to_multiset(),
                    ),
                    all_ordered(direction, runs@),
            {
                let mut single: Vec<(OrderValue, T)> = Vec::new();
                single.push(item);
                proof {
                    assert(single@ == seq![item]);
                    lemma_gathered_push(runs@, single);
                    vstd::seq_lib::lemma_multiset_commutative(gathered(runs@), single@);
                    assert(items.take(each.index() + 1) == items.take(each.index() as int) + single@);
                    vstd::seq_lib::lemma_multiset_commutative(
                        items.take(each.index() as int),
                        single@,
                    );
                    assert(before.add(items.take(each.index() as int).to_multiset()).add(
                        single@.to_multiset(),
                    ) =~= before.add(
                        items.take(each.index() as int).to_multiset().add(single@.to_multiset()),
                    ));
                }
                runs.push(single);
            }
            proof {
                assert(items.take(items.len() as int) == items);
            }
        }
    }
    proof {
        assert(total.take(total.len() as int) == total);
    }
    kmerge_by_order_value(runs, direction)
}

} // verus!
