use collection::collection::update::{decimal, PeerOutcome, PeerRoute};
use collection::collection::Collection;
use collection::error::{CollectionError, CollectionResult};
use collection::record::{ClockTag, UpdateResult, UpdateStatus};
use collection::shard::WriteOrdering;
use validator::{ValidationError, ValidationErrors};

fn done(operation_id: u64) -> UpdateResult {
    UpdateResult { operation_id, status: UpdateStatus::Completed, clock_tag: None }
}

fn bad_request(text: &str) -> CollectionError {
    CollectionError::BadRequest { description: text.to_string() }
}

fn service_error(text: &str) -> CollectionError {
    CollectionError::ServiceError { error: text.to_string() }
}

#[test]
fn partial_write_is_an_inconsistent_shard_failure() {
    let results: Vec<CollectionResult<UpdateResult>> =
        vec![Ok(done(1)), Err(bad_request("x")), Ok(done(3))];
    assert_eq!(
        Collection::update_from_client(results),
        Err(CollectionError::InconsistentShardFailure {
            shards_total: 3,
            shards_failed: 1,
            first_err: Box::new(bad_request("x")),
        })
    );
}

#[test]
fn uniform_write_failure_is_the_first_error() {
    let results: Vec<CollectionResult<UpdateResult>> =
        vec![Err(service_error("down")), Err(service_error("down"))];
    assert_eq!(Collection::update_from_client(results), Err(service_error("down")));
}

#[test]
fn uniform_failure_returns_the_first_of_different_errors() {
    let results: Vec<CollectionResult<UpdateResult>> =
        vec![Err(service_error("first")), Err(bad_request("second")), Err(service_error("third"))];
    assert_eq!(Collection::update_from_client(results), Err(service_error("first")));
}

#[test]
fn partial_failure_reports_the_first_failure_in_shard_order() {
    let results: Vec<CollectionResult<UpdateResult>> = vec![
        Ok(done(1)),
        Err(service_error("second shard")),
        Ok(done(3)),
        Err(bad_request("fourth shard")),
        Err(bad_request("fifth shard")),
    ];
    assert_eq!(
        Collection::update_from_client(results),
        Err(CollectionError::InconsistentShardFailure {
            shards_total: 5,
            shards_failed: 3,
            first_err: Box::new(service_error("second shard")),
        })
    );
}

#[test]
fn partial_failure_with_a_failing_first_shard() {
    let results: Vec<CollectionResult<UpdateResult>> = vec![Err(bad_request("x")), Ok(done(2))];
    assert_eq!(
        Collection::update_from_client(results),
        Err(CollectionError::InconsistentShardFailure {
            shards_total: 2,
            shards_failed: 1,
            first_err: Box::new(bad_request("x")),
        })
    );
}

#[test]
fn a_single_failing_shard_passes_its_error_on() {
    let missing = CollectionError::NotFound { what: "point 5".to_string() };
    let results: Vec<CollectionResult<UpdateResult>> = vec![Err(missing)];
    assert_eq!(
        Collection::update_from_client(results),
        Err(CollectionError::NotFound { what: "point 5".to_string() })
    );
}

#[test]
fn partial_failure_can_wrap_a_partial_failure() {
    let inner = CollectionError::InconsistentShardFailure {
        shards_total: 2,
        shards_failed: 1,
        first_err: Box::new(bad_request("x")),
    };
    let results: Vec<CollectionResult<UpdateResult>> = vec![Ok(done(1)), Err(inner)];
    assert_eq!(
        Collection::update_from_client(results),
        Err(CollectionError::InconsistentShardFailure {
            shards_total: 2,
            shards_failed: 1,
            first_err: Box::new(CollectionError::InconsistentShardFailure {
                shards_total: 2,
                shards_failed: 1,
                first_err: Box::new(bad_request("x")),
            }),
        })
    );
}

#[test]
fn error_builders_pick_the_variant() {
    assert_eq!(CollectionError::bad_request("a".to_string()), bad_request("a"));
    assert_eq!(CollectionError::service_error("b".to_string()), service_error("b"));
    assert_eq!(
        CollectionError::bad_input("c".to_string()),
        CollectionError::BadInput { description: "c".to_string() }
    );
}

#[test]
fn empty_update_is_a_bad_request() {
    assert_eq!(
        Collection::update_from_client(Vec::new()),
        Err(bad_request("Empty update request"))
    );
}

#[test]
fn successful_write_returns_the_last_result() {
    let results: Vec<CollectionResult<UpdateResult>> = vec![Ok(done(1)), Ok(done(2)), Ok(done(3))];
    assert_eq!(Collection::update_from_client(results), Ok(done(3)));
    assert_eq!(Collection::update_from_client(vec![Ok(done(9))]), Ok(done(9)));
}

#[test]
fn successful_write_keeps_the_clock_tag() {
    let tagged = UpdateResult {
        operation_id: 4,
        status: UpdateStatus::Acknowledged,
        clock_tag: Some(ClockTag { peer_id: 1, clock_id: 2, clock_tick: 3 }),
    };
    assert_eq!(Collection::update_from_client(vec![Ok(done(1)), Ok(tagged)]), Ok(tagged));
}

#[test]
fn peer_update_is_routed_by_ordering() {
    assert_eq!(Collection::route_from_peer(true, WriteOrdering::Weak), PeerRoute::Local);
    assert_eq!(Collection::route_from_peer(true, WriteOrdering::Medium), PeerRoute::WithConsistency);
    assert_eq!(Collection::route_from_peer(true, WriteOrdering::Strong), PeerRoute::WithConsistency);
}

#[test]
fn peer_update_to_a_missing_shard_is_not_routed() {
    assert_eq!(Collection::route_from_peer(false, WriteOrdering::Weak), PeerRoute::NoShard);
    assert_eq!(Collection::route_from_peer(false, WriteOrdering::Medium), PeerRoute::NoShard);
    assert_eq!(Collection::route_from_peer(false, WriteOrdering::Strong), PeerRoute::NoShard);
}

#[test]
fn peer_update_without_a_target_is_a_service_error() {
    assert_eq!(
        Collection::update_from_peer(7, PeerOutcome::NoShard),
        Err(service_error("No target shard 7 found for update"))
    );
    assert_eq!(
        Collection::update_from_peer(1203, PeerOutcome::NoShard),
        Err(service_error("No target shard 1203 found for update"))
    );
    assert_eq!(
        Collection::update_from_peer(0, PeerOutcome::NoShard),
        Err(service_error("No target shard 0 found for update"))
    );
}

#[test]
fn peer_update_without_a_local_replica_is_a_service_error() {
    assert_eq!(
        Collection::update_from_peer(42, PeerOutcome::Local(Ok(None))),
        Err(service_error("No target shard 42 found for update"))
    );
}

#[test]
fn peer_update_returns_what_was_applied() {
    assert_eq!(Collection::update_from_peer(7, PeerOutcome::Local(Ok(Some(done(11))))), Ok(done(11)));
    assert_eq!(Collection::update_from_peer(7, PeerOutcome::WithConsistency(Ok(done(12)))), Ok(done(12)));
}

#[test]
fn peer_update_hands_a_failure_on() {
    assert_eq!(
        Collection::update_from_peer(7, PeerOutcome::Local(Err(bad_request("x")))),
        Err(bad_request("x"))
    );
    assert_eq!(
        Collection::update_from_peer(7, PeerOutcome::WithConsistency(Err(service_error("down")))),
        Err(service_error("down"))
    );
}

#[test]
fn decimal_writes_numbers_as_text() {
    for number in [0u32, 1, 9, 10, 11, 99, 100, 101, 4096, 65535, 1_000_000, u32::MAX] {
        assert_eq!(decimal(number), number.to_string());
    }
    assert_eq!(decimal(u32::MAX), "4294967295");
}

#[test]
fn all_local_returns_the_first_result() {
    assert_eq!(
        Collection::update_all_local(vec![Ok(None), Ok(Some(done(2))), Ok(Some(done(3)))]),
        Ok(Some(done(2)))
    );
    assert_eq!(Collection::update_all_local(vec![Ok(Some(done(1))), Ok(None)]), Ok(Some(done(1))));
}

#[test]
fn all_local_without_local_shards_returns_none() {
    assert_eq!(Collection::update_all_local(Vec::new()), Ok(None));
    assert_eq!(Collection::update_all_local(vec![Ok(None), Ok(None), Ok(None)]), Ok(None));
}

#[test]
fn all_local_fails_with_the_first_failure() {
    assert_eq!(
        Collection::update_all_local(vec![
            Ok(Some(done(1))),
            Err(service_error("first")),
            Err(bad_request("second")),
        ]),
        Err(service_error("first"))
    );
    assert_eq!(
        Collection::update_all_local(vec![Err(bad_request("only")), Ok(Some(done(2)))]),
        Err(bad_request("only"))
    );
}

#[test]
fn valid_update_passes() {
    assert_eq!(Collection::validated(Ok(())), Ok(()));
}

#[test]
fn invalid_update_is_a_bad_request_with_the_validation_text() {
    let mut errors = ValidationErrors::new();
    errors.add("limit", ValidationError::new("range"));
    let text = errors.to_string();
    assert!(!text.is_empty());
    assert!(text.contains("limit"));
    assert_eq!(Collection::validated(Err(errors)), Err(bad_request(&text)));
}

#[test]
fn write_ordering_is_ordered() {
    assert!(WriteOrdering::Weak < WriteOrdering::Medium);
    assert!(WriteOrdering::Medium < WriteOrdering::Strong);
}
