//! Why scrolling by id walks a collection from end to end.
//!
//! The points that match a scroll are spread over the shards. Every shard
//! answers with its first matching points from the offset on, in ascending
//! order of id, as many as the plan's limit. What follows shows that the page
//! made of those answers is cut from the whole collection, and that the pages
//! of a scroll, one after the other, are the collection.

use vstd::prelude::*;
use crate::collection::merge::{lemma_flatten_contains, sorted_by_id};
use crate::collection::scroll::{arranged_by_id, cut_by_id, is_page_by_id};
use crate::record::{PointId, Record, ScrollResult};

verus! {

/// Whether a point with this id lies at or behind the offset.
pub open spec fn reaches(id: PointId, offset: Option<PointId>) -> bool {
    match offset {
        Some(from) => id >= from,
        None => true,
    }
}

/// Whether the records stand in ascending order of id and no id occurs twice.
pub open spec fn strictly_by_id<P, V>(records: Seq<Record<P, V>>) -> bool {
    forall|i: int, j: int|
        0 <= i < j < records.len() ==> (#[trigger] records[i]).id < (#[trigger] records[j]).id
}

/// How many points stand before the offset.
pub open spec fn start_of<P, V>(points: Seq<Record<P, V>>, offset: Option<PointId>) -> int
    decreases points.len(),
{
    if points.len() == 0 || reaches(points[0].id, offset) {
        0
    } else {
        1 + start_of(points.drop_first(), offset)
    }
}

/// The points from the offset on.
pub open spec fn from_offset<P, V>(points: Seq<Record<P, V>>, offset: Option<PointId>) -> Seq<
    Record<P, V>,
> {
    points.skip(start_of(points, offset))
}

/// Whether `answer` is what shard `shard` answers to a scroll by id: its
/// points from the offset on, in ascending order of id, and of those the
/// first `limit`. `points` holds the matching points of the whole collection
/// and `shard_of` tells which shard holds a point.
pub open spec fn is_shard_page<P, V>(
    answer: Seq<Record<P, V>>,
    points: Seq<Record<P, V>>,
    shard_of: spec_fn(PointId) -> int,
    shard: int,
    offset: Option<PointId>,
    limit: u64,
) -> bool {
    &&& strictly_by_id(answer)
    &&& answer.len() <= limit
    &&& forall|i: int|
        0 <= i < answer.len() ==> points.contains(#[trigger] answer[i]) && shard_of(answer[i].id)
            == shard && reaches(answer[i].id, offset)
    &&& forall|i: int|
        0 <= i < points.len() && shard_of((#[trigger] points[i]).id) == shard && reaches(
            points[i].id,
            offset,
        ) && !answer.contains(points[i]) ==> answer.len() == limit && answer[limit - 1].id
            < points[i].id
}

/// The pages of one scroll over `points`: the first starts at the beginning,
/// every other where the page before it says, and the last names no next
/// page.
pub open spec fn is_scroll<P, V>(
    pages: Seq<ScrollResult<P, V>>,
    points: Seq<Record<P, V>>,
    limit: u64,
) -> bool {
    &&& pages.len() >= 1
    &&& pages.last().next_page_offset is None
    &&& cut_by_id(pages[0], from_offset(points, None), limit)
    &&& forall|k: int|
        0 <= k < pages.len() - 1 ==> (#[trigger] pages[k]).next_page_offset is Some && cut_by_id(
            pages[k + 1],
            from_offset(points, pages[k].next_page_offset),
            limit,
        )
}

/// The points of all pages, page after page.
pub open spec fn scrolled<P, V>(pages: Seq<ScrollResult<P, V>>) -> Seq<Record<P, V>> {
    pages.map_values(|page: ScrollResult<P, V>| page.points@).flatten()
}

proof fn lemma_start_of<P, V>(points: Seq<Record<P, V>>, offset: Option<PointId>)
    ensures
        0 <= start_of(points, offset) <= points.len(),
        forall|i: int|
            0 <= i < start_of(points, offset) ==> !reaches((#[trigger] points[i]).id, offset),
        start_of(points, offset) < points.len() ==> reaches(
            points[start_of(points, offset)].id,
            offset,
        ),
    decreases points.len(),
{
    if !(points.len() == 0 || reaches(points[0].id, offset)) {
        let rest = points.drop_first();
        lemma_start_of(rest, offset);
        assert forall|i: int| 0 <= i < start_of(points, offset) implies !reaches(
            (#[trigger] points[i]).id,
            offset,
        ) by {
            if i > 0 {
                assert(points[i] == rest[i - 1]);
            }
        }
        if start_of(points, offset) < points.len() {
            assert(points[start_of(points, offset)] == rest[start_of(rest, offset)]);
        }
    }
}

/// The points from the offset on are the points that reach the offset, in
/// their order.
proof fn lemma_from_offset<P, V>(points: Seq<Record<P, V>>, offset: Option<PointId>)
    requires
        strictly_by_id(points),
    ensures
        strictly_by_id(from_offset(points, offset)),
        forall|record: Record<P, V>|
            from_offset(points, offset).contains(record) <==> points.contains(record) && reaches(
                record.id,
                offset,
            ),
{
    lemma_start_of(points, offset);
    let start = start_of(points, offset);
    let rest = from_offset(points, offset);
    assert forall|i: int, j: int| 0 <= i < j < rest.len() implies (#[trigger] rest[i]).id < (
    #[trigger] rest[j]).id by {
        assert(rest[i] == points[start + i]);
        assert(rest[j] == points[start + j]);
    }
    assert forall|record: Record<P, V>|
        rest.contains(record) <==> points.contains(record) && reaches(record.id, offset) by {
        if rest.contains(record) {
            let at = choose|at: int| 0 <= at < rest.len() && rest[at] == record;
            assert(points[start + at] == record);
            assert(points[start].id <= points[start + at].id) by {
                if at > 0 {
                    assert(points[start].id < points[start + at].id);
                }
            }
        }
        if points.contains(record) && reaches(record.id, offset) {
            let at = choose|at: int| 0 <= at < points.len() && points[at] == record;
            if at < start {
                assert(!reaches(points[at].id, offset));
            }
            assert(rest[at - start] == record);
        }
    }
}

/// Where a point of the collection stands, an offset at its id starts.
proof fn lemma_start_at_point<P, V>(points: Seq<Record<P, V>>, at: int)
    requires
        strictly_by_id(points),
        0 <= at < points.len(),
    ensures
        start_of(points, Some(points[at].id)) == at,
{
    let offset = Some(points[at].id);
    lemma_start_of(points, offset);
    let start = start_of(points, offset);
    if start < at {
        assert(points[start].id < points[at].id);
    } else if start > at {
        assert(!reaches(points[at].id, offset));
    }
}

/// In two sequences without repeated ids, of which one holds every record of
/// the other, a record of the inner one stands no earlier in the outer one.
proof fn lemma_rank<P, V>(inner: Seq<Record<P, V>>, outer: Seq<Record<P, V>>, at: int) -> (found:
    int)
    requires
        strictly_by_id(inner),
        strictly_by_id(outer),
        forall|i: int| 0 <= i < inner.len() ==> outer.contains(#[trigger] inner[i]),
        0 <= at < inner.len(),
    ensures
        at <= found < outer.len(),
        outer[found] == inner[at],
    decreases at,
{
    assert(outer.contains(inner[at]));
    let found = choose|found: int| 0 <= found < outer.len() && outer[found] == inner[at];
    if at > 0 {
        let below = lemma_rank(inner, outer, at - 1);
        assert(inner[at - 1].id < inner[at].id);
        if found <= below {
            if found < below {
                assert(outer[found].id < outer[below].id);
            }
        }
    }
    found
}

/// Two sequences without repeated ids start alike, as far as the one holds
/// all records of the other and the other holds the first records of the one.
proof fn lemma_same_start<P, V>(sorted: Seq<Record<P, V>>, rest: Seq<Record<P, V>>, upto: int)
    requires
        strictly_by_id(sorted),
        strictly_by_id(rest),
        forall|i: int| 0 <= i < sorted.len() ==> rest.contains(#[trigger] sorted[i]),
        0 <= upto <= rest.len(),
        forall|i: int| 0 <= i < upto ==> sorted.contains(#[trigger] rest[i]),
    ensures
        upto <= sorted.len(),
        sorted.take(upto) == rest.take(upto),
{
    let first = rest.take(upto);
    assert forall|i: int, j: int| 0 <= i < j < first.len() implies (#[trigger] first[i]).id < (
    #[trigger] first[j]).id by {
        assert(first[i] == rest[i]);
        assert(first[j] == rest[j]);
    }
    assert forall|i: int| 0 <= i < first.len() implies sorted.contains(#[trigger] first[i]) by {
        assert(first[i] == rest[i]);
    }
    if upto > 0 {
        let last = lemma_rank(first, sorted, upto - 1);
    }
    assert forall|i: int| 0 <= i < upto implies sorted[i] == rest[i] by {
        let above = lemma_rank(first, sorted, i);
        assert(sorted[above] == rest[i]);
        let behind = lemma_rank(sorted, rest, i);
        assert(rest[behind] == sorted[i]);
        if i < above {
            assert(sorted[i].id < sorted[above].id);
        }
        if i < behind {
            assert(rest[i].id < rest[behind].id);
        }
    }
    assert(sorted.take(upto) =~= rest.take(upto));
}

/// Parts that are free of repeats, and that a tag tells apart, are free of
/// repeats when put together.
proof fn lemma_flatten_no_duplicates<A>(parts: Seq<Seq<A>>, tag: spec_fn(A) -> int, base: int)
    requires
        forall|part: int| 0 <= part < parts.len() ==> (#[trigger] parts[part]).no_duplicates(),
        forall|part: int, at: int|
            0 <= part < parts.len() && 0 <= at < parts[part].len() ==> tag(
                #[trigger] parts[part][at],
            ) == base + part,
    ensures
        parts.flatten().no_duplicates(),
    decreases parts.len(),
{
    if parts.len() > 0 {
        let first = parts.first();
        let rest = parts.drop_first();
        assert forall|part: int| 0 <= part < rest.len() implies (
        #[trigger] rest[part]).no_duplicates() by {
            assert(rest[part] == parts[part + 1]);
        }
        assert forall|part: int, at: int|
            0 <= part < rest.len() && 0 <= at < rest[part].len() implies tag(
            #[trigger] rest[part][at],
        ) == base + 1 + part by {
            assert(rest[part] == parts[part + 1]);
            assert(tag(parts[part + 1][at]) == base + part + 1);
        }
        lemma_flatten_no_duplicates(rest, tag, base + 1);
        assert forall|i: int, j: int|
            0 <= i < first.len() && 0 <= j < rest.flatten().len() implies first[i]
            != rest.flatten()[j] by {
            let item = rest.flatten()[j];
            assert(rest.flatten().contains(item));
            lemma_flatten_contains(rest, item);
            let part = choose|part: int|
                0 <= part < rest.len() && (#[trigger] rest[part]).contains(item);
            let at = choose|at: int| 0 <= at < rest[part].len() && rest[part][at] == item;
            assert(tag(rest[part][at]) == base + 1 + part);
            assert(tag(parts[0][i]) == base);
        }
        assert(first.no_duplicates());
        vstd::seq_lib::lemma_no_dup_in_concat(first, rest.flatten());
        assert(parts.flatten() == first + rest.flatten());
    }
}

/// The page that is made of what the shards answer is the page that is cut
/// from the collection: with the points from the offset on in ascending
/// order of id, it holds the first of them, one fewer than `limit`, and names
/// the id of the point behind those as the next offset, if there is one.
pub proof fn law_page_is_cut_from_the_collection<P, V>(
    points: Seq<Record<P, V>>,
    shard_of: spec_fn(PointId) -> int,
    answers: Seq<Seq<Record<P, V>>>,
    offset: Option<PointId>,
    limit: u64,
    page: ScrollResult<P, V>,
)
    requires
        strictly_by_id(points),
        limit >= 1,
        forall|i: int| 0 <= i < points.len() ==> 0 <= shard_of((#[trigger] points[i]).id) < answers.len(),
        forall|shard: int|
            0 <= shard < answers.len() ==> is_shard_page(
                #[trigger] answers[shard],
                points,
                shard_of,
                shard,
                offset,
                limit,
            ),
        is_page_by_id(page, answers.flatten(), limit),
    ensures
        cut_by_id(page, from_offset(points, offset), limit),
{
    broadcast use vstd::seq_lib::group_to_multiset_ensures;

    let all = answers.flatten();
    let rest = from_offset(points, offset);
    let sorted = choose|sorted: Seq<Record<P, V>>| #[trigger]
        arranged_by_id(sorted, all) && cut_by_id(page, sorted, limit);
    lemma_from_offset(points, offset);

    // What the shards answered holds no record twice.
    assert forall|shard: int| 0 <= shard < answers.len() implies (
    #[trigger] answers[shard]).no_duplicates() by {
        let answer = answers[shard];
        assert forall|i: int, j: int|
            0 <= i < answer.len() && 0 <= j < answer.len() && i != j implies answer[i]
            != answer[j] by {
            if i < j {
                assert(answer[i].id < answer[j].id);
            } else {
                assert(answer[j].id < answer[i].id);
            }
        }
    }
    let tag = |record: Record<P, V>| shard_of(record.id);
    lemma_flatten_no_duplicates(answers, tag, 0);
    all.lemma_multiset_has_no_duplicates();
    sorted.lemma_multiset_has_no_duplicates_conv();

    // Every record of the sorted answers is a point from the offset on.
    assert forall|i: int| 0 <= i < sorted.len() implies rest.contains(#[trigger] sorted[i]) by {
        let record = sorted[i];
        assert(sorted.contains(record));
        assert(sorted.to_multiset().count(record) > 0);
        assert(all.contains(record));
        lemma_flatten_contains(answers, record);
        let shard = choose|shard: int|
            0 <= shard < answers.len() && (#[trigger] answers[shard]).contains(record);
        let at = choose|at: int| 0 <= at < answers[shard].len() && answers[shard][at] == record;
        assert(points.contains(answers[shard][at]));
    }

    // So the sorted answers hold no id twice.
    assert forall|i: int, j: int| 0 <= i < j < sorted.len() implies (#[trigger] sorted[i]).id < (
    #[trigger] sorted[j]).id by {
        assert(sorted[i].id <= sorted[j].id);
        if sorted[i].id == sorted[j].id {
            assert(rest.contains(sorted[i]));
            assert(rest.contains(sorted[j]));
            let one = choose|one: int| 0 <= one < rest.len() && rest[one] == sorted[i];
            let other = choose|other: int| 0 <= other < rest.len() && rest[other] == sorted[j];
            if one < other {
                assert(rest[one].id < rest[other].id);
            } else if other < one {
                assert(rest[other].id < rest[one].id);
            }
            assert(sorted[i] == sorted[j]);
        }
    }

    // The first points from the offset on are all among the answers.
    let upto: int = if rest.len() < limit {
        rest.len() as int
    } else {
        limit as int
    };
    assert forall|i: int| 0 <= i < upto implies sorted.contains(#[trigger] rest[i]) by {
        let record = rest[i];
        assert(rest.contains(record));
        assert(points.contains(record) && reaches(record.id, offset));
        let place = choose|place: int| 0 <= place < points.len() && points[place] == record;
        let shard = shard_of(points[place].id);
        let answer = answers[shard];
        assert(is_shard_page(answer, points, shard_of, shard, offset, limit));
        if !answer.contains(record) {
            assert(answer.len() == limit && answer[limit - 1].id < points[place].id);
            assert forall|k: int| 0 <= k < answer.len() implies rest.contains(
                #[trigger] answer[k],
            ) by {
                assert(points.contains(answer[k]) && reaches(answer[k].id, offset));
            }
            let found = lemma_rank(answer, rest, limit - 1);
            if found > i {
                assert(rest[i].id < rest[found].id);
            }
        }
        assert(answers[shard].contains(record));
        lemma_flatten_contains(answers, record);
        assert(all.contains(record));
        assert(all.to_multiset().count(record) > 0);
    }
    lemma_same_start(sorted, rest, upto);

    if rest.len() < limit {
        if sorted.len() > rest.len() {
            let found = lemma_rank(sorted, rest, sorted.len() - 1);
        }
        assert(sorted.take(upto) == sorted);
        assert(rest.take(upto) == rest);
    } else {
        assert(sorted.take(limit - 1) =~= sorted.take(upto).take(limit - 1));
        assert(rest.take(limit - 1) =~= rest.take(upto).take(limit - 1));
        assert(sorted[limit - 1] == sorted.take(upto)[limit - 1]);
        assert(rest[limit - 1] == rest.take(upto)[limit - 1]);
    }
}

/// What the first pages of a scroll add up to: the points of the collection
/// up to the end of the last of those pages.
proof fn lemma_scroll_so_far<P, V>(
    pages: Seq<ScrollResult<P, V>>,
    points: Seq<Record<P, V>>,
    limit: u64,
    last: int,
) -> (begin: int)
    requires
        strictly_by_id(points),
        limit >= 2,
        is_scroll(pages, points, limit),
        0 <= last < pages.len(),
    ensures
        0 <= begin <= points.len(),
        begin == start_of(
            points,
            if last == 0 {
                None
            } else {
                pages[last - 1].next_page_offset
            },
        ),
        begin + pages[last].points@.len() <= points.len(),
        scrolled(pages.take(last + 1)) == points.take(begin + pages[last].points@.len()),
        pages[last].next_page_offset is None ==> begin + pages[last].points@.len() == points.len(),
        pages[last].next_page_offset is Some ==> begin + pages[last].points@.len() < points.len()
            && pages[last].next_page_offset == Some(
            points[begin + pages[last].points@.len()].id,
        ),
    decreases last,
{
    let view = |page: ScrollResult<P, V>| page.points@;
    let offset = if last == 0 {
        None
    } else {
        pages[last - 1].next_page_offset
    };
    lemma_start_of(points, offset);
    let begin = start_of(points, offset);
    let rest = from_offset(points, offset);
    if last == 0 {
        assert(begin == 0);
        assert(pages.take(1).map_values(view) =~= seq![pages[0].points@]);
        seq![pages[0].points@].lemma_flatten_one_element();
        assert(pages[0].points@ =~= points.take(pages[0].points@.len() as int));
    } else {
        let before = lemma_scroll_so_far(pages, points, limit, last - 1);
        let covered = before + pages[last - 1].points@.len();
        assert(pages[last - 1].next_page_offset is Some);
        lemma_start_at_point(points, covered);
        assert(begin == covered);
        assert(cut_by_id(pages[last], rest, limit));
        assert(pages.take(last + 1).map_values(view) =~= pages.take(last).map_values(view).push(
            pages[last].points@,
        ));
        pages.take(last).map_values(view).lemma_flatten_push(pages[last].points@);
        assert(points.take(begin) + pages[last].points@ =~= points.take(
            begin + pages[last].points@.len(),
        ));
    }
    begin
}

/// Scrolling by id walks the collection from end to end: the pages of a
/// scroll, one after the other, hold exactly the matching points of the
/// collection in ascending order of id, none twice and none left out.
/// `limit` is the limit of the plan, one more than the page size.
pub proof fn law_scroll_round_trip<P, V>(
    pages: Seq<ScrollResult<P, V>>,
    points: Seq<Record<P, V>>,
    limit: u64,
)
    requires
        strictly_by_id(points),
        limit >= 2,
        is_scroll(pages, points, limit),
    ensures
        scrolled(pages) == points,
{
    let begin = lemma_scroll_so_far(pages, points, limit, pages.len() - 1);
    assert(pages.take(pages.len() as int) == pages);
    assert(points.take(points.len() as int) == points);
}

} // verus!
