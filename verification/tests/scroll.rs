use collection::collection::read::ShardAnswer;
use collection::collection::scroll::ScrollPlan;
use collection::collection::Collection;
use collection::error::{CollectionError, CollectionResult};
use collection::record::{
    Direction, OrderBy, PayloadSelector, Record, ScrollRequest, ScrollResult, WithPayloadInterface,
    WithVector, DEFAULT_SCROLL_LIMIT,
};
use collection::schema::{IndexedField, PayloadIndexSchema};
use collection::shard::ShardKey;

type Point = Record<String, Vec<u32>>;

fn point(id: u64) -> Point {
    Record { id, payload: None, vector: None, shard_key: None }
}

fn ids(page: &ScrollResult<String, Vec<u32>>) -> Vec<u64> {
    page.points.iter().map(|point| point.id).collect()
}

fn all_ok<T>(answers: Vec<T>) -> Vec<CollectionResult<T>> {
    answers.into_iter().map(Ok).collect()
}

fn field(key: &str, range: bool) -> IndexedField {
    IndexedField { key: key.to_string(), range }
}

fn with_schema(fields: Vec<IndexedField>) -> Collection {
    Collection::new(PayloadIndexSchema { fields })
}

fn request() -> ScrollRequest {
    ScrollRequest {
        offset: None,
        limit: None,
        with_payload: None,
        with_vector: WithVector::Bool(false),
        order_by: None,
    }
}

fn order_by(key: &str, direction: Direction) -> OrderBy {
    OrderBy { key: key.to_string(), direction, start_from: None }
}

/// What a shard that holds `held` answers to a scroll by id.
fn shard_scroll(held: &[u64], plan: &ScrollPlan) -> ShardAnswer<Point> {
    let mut matching: Vec<u64> =
        held.iter().copied().filter(|id| plan.offset.map_or(true, |offset| *id >= offset)).collect();
    matching.sort();
    matching.truncate(plan.limit as usize);
    ShardAnswer { items: matching.into_iter().map(point).collect(), shard_key: None }
}

fn scroll_once(collection: &Collection, shards: &[Vec<u64>], offset: Option<u64>, limit: u64) -> ScrollResult<String, Vec<u32>> {
    let plan = collection.scroll_by(ScrollRequest { offset, limit: Some(limit), ..request() }).unwrap();
    let answers = shards.iter().map(|held| Ok(shard_scroll(held, &plan))).collect();
    Collection::scroll_page_by_id(answers, plan.limit).unwrap()
}

#[test]
fn scroll_pagination_over_two_shards() {
    let collection = with_schema(Vec::new());
    let shards = vec![vec![1, 3, 5], vec![2, 4, 6]];

    let first = scroll_once(&collection, &shards, None, 3);
    assert_eq!(ids(&first), vec![1, 2, 3]);
    assert_eq!(first.next_page_offset, Some(4));

    let second = scroll_once(&collection, &shards, Some(4), 3);
    assert_eq!(ids(&second), vec![4, 5, 6]);
    assert_eq!(second.next_page_offset, None);
}

#[test]
fn scroll_round_trip_yields_every_point_once() {
    let collection = with_schema(Vec::new());
    let shards = vec![vec![14, 3, 27, 8], vec![], vec![1, 30, 2, 19, 5], vec![11]];
    let mut expected: Vec<u64> = shards.iter().flatten().copied().collect();
    expected.sort();
    for limit in 1..=12u64 {
        let mut seen = Vec::new();
        let mut offset = None;
        let mut pages = 0;
        loop {
            let page = scroll_once(&collection, &shards, offset, limit);
            assert!(page.points.len() as u64 <= limit);
            seen.extend(ids(&page));
            pages += 1;
            assert!(pages <= 20);
            match page.next_page_offset {
                Some(next) => offset = Some(next),
                None => break,
            }
        }
        assert_eq!(seen, expected);
    }
}

#[test]
fn scroll_page_that_is_exactly_full_is_the_last() {
    let collection = with_schema(Vec::new());
    let page = scroll_once(&collection, &[vec![1, 2], vec![3]], None, 3);
    assert_eq!(ids(&page), vec![1, 2, 3]);
    assert_eq!(page.next_page_offset, None);
}

#[test]
fn scroll_of_nothing_is_an_empty_last_page() {
    let collection = with_schema(Vec::new());
    let page = scroll_once(&collection, &[vec![], vec![]], None, 5);
    assert!(page.points.is_empty());
    assert_eq!(page.next_page_offset, None);
    let none: ScrollResult<String, Vec<u32>> = Collection::scroll_page_by_id(Vec::new(), 1).unwrap();
    assert!(none.points.is_empty());
    assert_eq!(none.next_page_offset, None);
}

#[test]
fn scroll_page_by_id_sorts_and_cuts() {
    let answers = vec![
        ShardAnswer { items: vec![point(7), point(9)], shard_key: None },
        ShardAnswer { items: vec![point(2), point(8), point(10)], shard_key: None },
    ];
    let page = Collection::scroll_page_by_id(all_ok(answers), 4).unwrap();
    assert_eq!(ids(&page), vec![2, 7, 8]);
    assert_eq!(page.next_page_offset, Some(9));
}

#[test]
fn scroll_page_by_id_carries_shard_keys() {
    let left = ShardKey::Keyword("left".to_string());
    let right = ShardKey::Keyword("right".to_string());
    let answers = vec![
        ShardAnswer { items: vec![point(1), point(4)], shard_key: Some(left.clone()) },
        ShardAnswer { items: vec![point(2)], shard_key: Some(right.clone()) },
        ShardAnswer { items: vec![point(3)], shard_key: None },
    ];
    let page = Collection::scroll_page_by_id(all_ok(answers), 10).unwrap();
    let keys: Vec<Option<ShardKey>> = page.points.iter().map(|point| point.shard_key.clone()).collect();
    assert_eq!(ids(&page), vec![1, 2, 3, 4]);
    assert_eq!(keys, vec![Some(left.clone()), Some(right), None, Some(left)]);
}

#[test]
fn scroll_plan_fetches_one_more_than_the_page() {
    let collection = with_schema(Vec::new());
    let plan = collection
        .scroll_by(ScrollRequest { offset: Some(12), limit: Some(3), ..request() })
        .unwrap();
    assert_eq!(
        plan,
        ScrollPlan {
            offset: Some(12),
            limit: 4,
            with_payload: WithPayloadInterface::Bool(true),
            with_vector: WithVector::Bool(false),
            order_by: None,
        }
    );
}

#[test]
fn scroll_plan_uses_the_defaults() {
    let collection = with_schema(Vec::new());
    let plan = collection.scroll_by(request()).unwrap();
    assert_eq!(DEFAULT_SCROLL_LIMIT, 10);
    assert_eq!(plan.limit, 11);
    assert_eq!(plan.with_payload, WithPayloadInterface::Bool(true));
    assert_eq!(plan.offset, None);
}

#[test]
fn scroll_plan_hands_the_choices_on() {
    let collection = with_schema(Vec::new());
    let with_payload = WithPayloadInterface::Selector(PayloadSelector::Exclude(vec!["secret".to_string()]));
    let with_vector = WithVector::Selector(vec!["image".to_string()]);
    let plan = collection
        .scroll_by(ScrollRequest {
            with_payload: Some(with_payload.clone()),
            with_vector: with_vector.clone(),
            limit: Some(1),
            ..request()
        })
        .unwrap();
    assert_eq!(plan.with_payload, with_payload);
    assert_eq!(plan.with_vector, with_vector);
    assert_eq!(plan.limit, 2);
    let fields = WithPayloadInterface::Fields(vec!["city".to_string()]);
    let plan = collection.scroll_by(ScrollRequest { with_payload: Some(fields.clone()), ..request() }).unwrap();
    assert_eq!(plan.with_payload, fields);
    let off = WithPayloadInterface::Bool(false);
    let plan = collection.scroll_by(ScrollRequest { with_payload: Some(off.clone()), ..request() }).unwrap();
    assert_eq!(plan.with_payload, off);
}

#[test]
fn ordered_scroll_plan_fetches_the_page_size() {
    let collection = with_schema(vec![field("age", true)]);
    let by_age = order_by("age", Direction::Desc);
    let plan = collection
        .scroll_by(ScrollRequest { limit: Some(5), order_by: Some(by_age.clone()), ..request() })
        .unwrap();
    assert_eq!(plan.limit, 5);
    assert_eq!(plan.order_by, Some(by_age));
    assert_eq!(plan.offset, None);
}

#[test]
fn ordered_scroll_plan_takes_the_largest_limit() {
    let collection = with_schema(vec![field("age", true)]);
    let plan = collection
        .scroll_by(ScrollRequest {
            limit: Some(u64::MAX),
            order_by: Some(order_by("age", Direction::Asc)),
            ..request()
        })
        .unwrap();
    assert_eq!(plan.limit, u64::MAX);
    let plan = with_schema(Vec::new()).scroll_by(ScrollRequest { limit: Some(u64::MAX - 1), ..request() }).unwrap();
    assert_eq!(plan.limit, u64::MAX);
}

#[test]
fn order_by_with_offset_is_bad_input() {
    let collection = with_schema(vec![field("age", true)]);
    let outcome = collection.scroll_by(ScrollRequest {
        offset: Some(10),
        order_by: Some(order_by("age", Direction::Asc)),
        ..request()
    });
    assert_eq!(
        outcome,
        Err(CollectionError::BadInput {
            description: "Cannot use an `offset` when using `order_by`. The alternative for paging is to use `order_by.start_from` and a filter to exclude the IDs that you've already seen for the `order_by.start_from` value".to_string()
        })
    );
}

#[test]
fn order_by_without_range_index_is_a_bad_request_naming_the_key() {
    let text = |key: &str| {
        format!("No range index for `order_by` key: {key}. Please create one to use `order_by`. Integer and float payloads can have range indexes, see https://qdrant.tech/documentation/concepts/indexing/#payload-index.")
    };
    let unindexed = with_schema(Vec::new());
    let outcome = unindexed.scroll_by(ScrollRequest { order_by: Some(order_by("age", Direction::Asc)), ..request() });
    assert_eq!(outcome, Err(CollectionError::BadRequest { description: text("age") }));

    let keyword_only = with_schema(vec![field("city", false), field("age", true)]);
    let outcome = keyword_only.scroll_by(ScrollRequest { order_by: Some(order_by("city", Direction::Desc)), ..request() });
    assert_eq!(outcome, Err(CollectionError::BadRequest { description: text("city") }));
}

#[test]
fn missing_range_index_is_reported_before_the_offset() {
    let collection = with_schema(Vec::new());
    let outcome = collection.scroll_by(ScrollRequest {
        offset: Some(10),
        limit: Some(0),
        order_by: Some(order_by("age", Direction::Asc)),
        ..request()
    });
    assert!(matches!(outcome, Err(CollectionError::BadRequest { description }) if description.contains("key: age.")));
}

#[test]
fn offset_is_reported_before_a_zero_limit() {
    let collection = with_schema(vec![field("age", true)]);
    let outcome = collection.scroll_by(ScrollRequest {
        offset: Some(1),
        limit: Some(0),
        order_by: Some(order_by("age", Direction::Asc)),
        ..request()
    });
    assert!(matches!(outcome, Err(CollectionError::BadInput { .. })));
}

#[test]
fn zero_limit_is_a_bad_request() {
    let expected = Err(CollectionError::BadRequest { description: "Limit cannot be 0".to_string() });
    let collection = with_schema(vec![field("age", true)]);
    assert_eq!(collection.scroll_by(ScrollRequest { limit: Some(0), ..request() }), expected);
    let ordered = ScrollRequest { limit: Some(0), order_by: Some(order_by("age", Direction::Asc)), ..request() };
    assert_eq!(collection.scroll_by(ordered), expected);
}

#[test]
fn range_index_lookup_takes_the_first_entry_of_a_key() {
    let schema = PayloadIndexSchema {
        fields: vec![field("age", false), field("age", true), field("size", true), field("", true)],
    };
    assert!(!schema.has_range_index(&"age".to_string()));
    assert!(schema.has_range_index(&"size".to_string()));
    assert!(schema.has_range_index(&String::new()));
    assert!(!schema.has_range_index(&"siz".to_string()));
    assert!(!schema.has_range_index(&"sizes".to_string()));
    assert!(!PayloadIndexSchema { fields: Vec::new() }.has_range_index(&"age".to_string()));
}

#[test]
fn ordered_scroll_merges_ascending() {
    let answers = vec![
        ShardAnswer { items: vec![(10, point(1)), (30, point(2)), (50, point(3))], shard_key: None },
        ShardAnswer { items: vec![(20, point(4)), (40, point(5))], shard_key: None },
    ];
    let page = Collection::scroll_page_by_order(all_ok(answers), Direction::Asc, 4).unwrap();
    assert_eq!(ids(&page), vec![1, 4, 2, 5]);
    assert_eq!(page.next_page_offset, None);
}

#[test]
fn ordered_scroll_merges_descending() {
    let answers = vec![
        ShardAnswer { items: vec![(50, point(3)), (30, point(2)), (10, point(1))], shard_key: None },
        ShardAnswer { items: vec![(40, point(5)), (20, point(4))], shard_key: None },
    ];
    let page = Collection::scroll_page_by_order(all_ok(answers), Direction::Desc, 10).unwrap();
    assert_eq!(ids(&page), vec![3, 5, 2, 4, 1]);
    assert_eq!(page.next_page_offset, None);
}

#[test]
fn ordered_scroll_never_names_a_next_page() {
    let answers = vec![ShardAnswer { items: vec![(1, point(1)), (2, point(2)), (3, point(3))], shard_key: None }];
    let full = Collection::scroll_page_by_order(all_ok(answers.clone()), Direction::Asc, 3).unwrap();
    assert_eq!(ids(&full), vec![1, 2, 3]);
    assert_eq!(full.next_page_offset, None);
    let cut = Collection::scroll_page_by_order(all_ok(answers.clone()), Direction::Asc, 2).unwrap();
    assert_eq!(ids(&cut), vec![1, 2]);
    assert_eq!(cut.next_page_offset, None);
    let none = Collection::scroll_page_by_order(all_ok(answers), Direction::Asc, 0).unwrap();
    assert!(none.points.is_empty());
    assert_eq!(none.next_page_offset, None);
}

#[test]
fn ordered_scroll_is_ordered_even_if_a_shard_is_not() {
    let answers = vec![
        ShardAnswer { items: vec![(30, point(2)), (10, point(1)), (50, point(3))], shard_key: None },
        ShardAnswer { items: vec![(20, point(4)), (40, point(5))], shard_key: None },
    ];
    let page = Collection::scroll_page_by_order(all_ok(answers), Direction::Asc, 5).unwrap();
    assert_eq!(ids(&page), vec![1, 4, 2, 5, 3]);
}

#[test]
fn ordered_scroll_carries_shard_keys() {
    let key = ShardKey::Number(9);
    let answers = vec![
        ShardAnswer { items: vec![(2, point(1))], shard_key: Some(key.clone()) },
        ShardAnswer { items: vec![(1, point(2))], shard_key: None },
    ];
    let page = Collection::scroll_page_by_order(all_ok(answers), Direction::Asc, 2).unwrap();
    assert_eq!(ids(&page), vec![2, 1]);
    assert_eq!(page.points[0].shard_key, None);
    assert_eq!(page.points[1].shard_key, Some(key));
}

#[test]
fn scroll_fails_with_the_first_failure() {
    let down = |shard: u32| CollectionError::ServiceError { error: format!("shard {shard} is down") };
    let by_id = vec![
        Ok(ShardAnswer { items: vec![point(1)], shard_key: None }),
        Err(down(1)),
        Err(down(2)),
    ];
    assert_eq!(Collection::scroll_page_by_id(by_id, 3), Err(down(1)));
    let by_order = vec![
        Err(down(0)),
        Ok(ShardAnswer { items: vec![(1, point(1))], shard_key: None }),
        Err(down(2)),
    ];
    assert_eq!(Collection::scroll_page_by_order(by_order, Direction::Asc, 3), Err(down(0)));
}
