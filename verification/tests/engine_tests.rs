use opengov_bot::engine::{Action, Engine, Event, Outcome, PassEnd};
use opengov_bot::errors::{Failure, PlatformError, SourceError, StoreError};
use opengov_bot::model::{Division, DivisionRecord};

fn listed(division_id: i32, title: &str, publication_updated: &str) -> DivisionRecord {
    DivisionRecord {
        division_id,
        title: title.to_string(),
        publication_updated: publication_updated.to_string(),
    }
}

fn two_listed() -> Vec<DivisionRecord> {
    vec![listed(1, "A", "2024-01-01"), listed(2, "B", "2024-01-01")]
}

/// Feeds the events in turn and returns the engine with the last call it
/// asked for.
fn feed(events: Vec<Event>) -> (Engine, Action) {
    let mut engine = Engine::start();
    let mut action = engine.pending();
    for event in events {
        let next = engine.step(event);
        engine = next.0;
        action = next.1;
    }
    (engine, action)
}

fn mapping_of(division_id: i32, thread_id: i64) -> Division {
    Division { id: 1, division_id, discord_thread_id: thread_id }
}

#[test]
fn a_pass_begins_with_the_listing() {
    let engine = Engine::start();
    assert_eq!(engine.pending(), Action::FetchListing);
    assert!(!engine.is_done());
    assert_eq!(engine.end(), None);
    assert_eq!(engine.processed(), 0);
}

#[test]
fn unavailable_listing_aborts_the_pass() {
    let (engine, action) = feed(vec![Event::Listing(Err(SourceError::Unavailable))]);
    assert_eq!(action, Action::Finish(PassEnd::Aborted(SourceError::Unavailable)));
    assert!(engine.is_done());
    assert_eq!(engine.end(), Some(PassEnd::Aborted(SourceError::Unavailable)));
    assert_eq!(engine.into_outcomes(), Vec::new());
}

#[test]
fn malformed_listing_aborts_the_pass() {
    let (engine, action) = feed(vec![Event::Listing(Err(SourceError::Malformed))]);
    assert_eq!(action, Action::Finish(PassEnd::Aborted(SourceError::Malformed)));
    assert_eq!(engine.processed(), 0);
}

#[test]
fn rejected_thread_leaves_the_next_division_to_be_created() {
    let (engine, action) = feed(vec![
        Event::Listing(Ok(two_listed())),
        Event::Mapping(Ok(None)),
        Event::Detail(Ok(listed(1, "A", "2024-01-01"))),
        Event::ThreadCreated(Err(PlatformError::Rejected)),
    ]);
    assert_eq!(action, Action::FindMapping { division_id: 2 });
    assert_eq!(
        engine.outcome(0),
        Some(Outcome::Failed(Failure::Platform(PlatformError::Rejected)))
    );
    let next = engine.step(Event::Mapping(Ok(None)));
    assert_eq!(next.1, Action::FetchDivision { division_id: 2 });
    let next = next.0.step(Event::Detail(Ok(listed(2, "B in full", "2024-01-01"))));
    assert_eq!(next.1, Action::CreateThread { title: "B in full".to_string() });
    let next = next.0.step(Event::ThreadCreated(Ok(77)));
    assert_eq!(next.1, Action::CreateMapping { division_id: 2, thread_id: 77 });
    let next = next.0.step(Event::MappingCreated(Ok(mapping_of(2, 77))));
    assert_eq!(
        next.1,
        Action::RecordUpdateSeen { division_id: 2, publication_updated: "2024-01-01".to_string() }
    );
    assert_eq!(next.0.processed(), 1);
    let next = next.0.step(Event::Recorded(Ok(())));
    assert_eq!(next.1, Action::Finish(PassEnd::Completed));
    assert_eq!(
        next.0.into_outcomes(),
        vec![
            Outcome::Failed(Failure::Platform(PlatformError::Rejected)),
            Outcome::Created { thread_id: 77 },
        ]
    );
}

#[test]
fn rejected_post_leaves_the_next_division_to_be_processed() {
    let (engine, action) = feed(vec![
        Event::Listing(Ok(two_listed())),
        Event::Mapping(Ok(Some(mapping_of(1, 5)))),
        Event::Detail(Ok(listed(1, "A", "2024-01-02"))),
        Event::LastSeen(Ok(Some("2024-01-01".to_string()))),
        Event::Posted(Err(PlatformError::Rejected)),
    ]);
    assert_eq!(action, Action::FindMapping { division_id: 2 });
    assert_eq!(
        engine.outcome(0),
        Some(Outcome::Failed(Failure::Platform(PlatformError::Rejected)))
    );
    assert_eq!(engine.outcome(1), None);
}

#[test]
fn duplicate_mapping_is_no_failure() {
    let (engine, action) = feed(vec![
        Event::Listing(Ok(two_listed())),
        Event::Mapping(Ok(None)),
        Event::Detail(Ok(listed(1, "A", "2024-01-01"))),
        Event::ThreadCreated(Ok(31)),
        Event::MappingCreated(Err(StoreError::DuplicateMapping)),
    ]);
    assert_eq!(action, Action::FindMapping { division_id: 2 });
    assert_eq!(engine.outcome(0), Some(Outcome::Duplicate { thread_id: 31 }));
    assert_eq!(engine.processed(), 1);
}

#[test]
fn unavailable_store_on_insert_fails_the_division() {
    let (engine, action) = feed(vec![
        Event::Listing(Ok(two_listed())),
        Event::Mapping(Ok(None)),
        Event::Detail(Ok(listed(1, "A", "2024-01-01"))),
        Event::ThreadCreated(Ok(31)),
        Event::MappingCreated(Err(StoreError::Unavailable)),
    ]);
    assert_eq!(action, Action::FindMapping { division_id: 2 });
    assert_eq!(engine.outcome(0), Some(Outcome::Failed(Failure::Store(StoreError::Unavailable))));
}

#[test]
fn unavailable_store_on_lookup_fails_the_division() {
    let (engine, action) = feed(vec![
        Event::Listing(Ok(two_listed())),
        Event::Mapping(Err(StoreError::Unavailable)),
    ]);
    assert_eq!(action, Action::FindMapping { division_id: 2 });
    assert_eq!(engine.outcome(0), Some(Outcome::Failed(Failure::Store(StoreError::Unavailable))));
}

#[test]
fn missing_detail_fails_the_division() {
    let (engine, action) = feed(vec![
        Event::Listing(Ok(two_listed())),
        Event::Mapping(Ok(None)),
        Event::Detail(Err(SourceError::NotFound)),
    ]);
    assert_eq!(action, Action::FindMapping { division_id: 2 });
    assert_eq!(engine.outcome(0), Some(Outcome::Failed(Failure::Source(SourceError::NotFound))));
}

#[test]
fn unavailable_platform_fails_the_division() {
    let (engine, action) = feed(vec![
        Event::Listing(Ok(two_listed())),
        Event::Mapping(Ok(None)),
        Event::Detail(Ok(listed(1, "A", "2024-01-01"))),
        Event::ThreadCreated(Err(PlatformError::Unavailable)),
    ]);
    assert_eq!(action, Action::FindMapping { division_id: 2 });
    assert_eq!(
        engine.outcome(0),
        Some(Outcome::Failed(Failure::Platform(PlatformError::Unavailable)))
    );
}

#[test]
fn deleted_thread_fails_the_division() {
    let (engine, action) = feed(vec![
        Event::Listing(Ok(two_listed())),
        Event::Mapping(Ok(Some(mapping_of(1, 5)))),
        Event::Detail(Ok(listed(1, "A", "2024-01-02"))),
        Event::LastSeen(Ok(None)),
        Event::Posted(Err(PlatformError::ThreadNotFound)),
    ]);
    assert_eq!(action, Action::FindMapping { division_id: 2 });
    assert_eq!(
        engine.outcome(0),
        Some(Outcome::Failed(Failure::Platform(PlatformError::ThreadNotFound)))
    );
}

#[test]
fn same_marker_is_skipped() {
    let (engine, action) = feed(vec![
        Event::Listing(Ok(two_listed())),
        Event::Mapping(Ok(Some(mapping_of(1, 5)))),
        Event::Detail(Ok(listed(1, "A", "2024-01-01"))),
        Event::LastSeen(Ok(Some("2024-01-01".to_string()))),
    ]);
    assert_eq!(action, Action::FindMapping { division_id: 2 });
    assert_eq!(engine.outcome(0), Some(Outcome::Unchanged));
}

#[test]
fn moved_marker_is_posted_and_recorded() {
    let (_, action) = feed(vec![
        Event::Listing(Ok(two_listed())),
        Event::Mapping(Ok(Some(mapping_of(1, 5)))),
        Event::Detail(Ok(listed(1, "A", "2024-01-02"))),
        Event::LastSeen(Ok(Some("2024-01-01".to_string()))),
    ]);
    assert_eq!(
        action,
        Action::PostUpdate { thread_id: 5, content: "this is some contents".to_string() }
    );
    let (engine, action) = feed(vec![
        Event::Listing(Ok(two_listed())),
        Event::Mapping(Ok(Some(mapping_of(1, 5)))),
        Event::Detail(Ok(listed(1, "A", "2024-01-02"))),
        Event::LastSeen(Ok(Some("2024-01-01".to_string()))),
        Event::Posted(Ok(())),
    ]);
    assert_eq!(
        action,
        Action::RecordUpdateSeen { division_id: 1, publication_updated: "2024-01-02".to_string() }
    );
    let next = engine.step(Event::Recorded(Ok(())));
    assert_eq!(next.1, Action::FindMapping { division_id: 2 });
    assert_eq!(next.0.outcome(0), Some(Outcome::Updated));
}

#[test]
fn failed_record_fails_the_division() {
    let (engine, _) = feed(vec![
        Event::Listing(Ok(two_listed())),
        Event::Mapping(Ok(Some(mapping_of(1, 5)))),
        Event::Detail(Ok(listed(1, "A", "2024-01-02"))),
        Event::LastSeen(Err(StoreError::Unavailable)),
    ]);
    assert_eq!(engine.outcome(0), Some(Outcome::Failed(Failure::Store(StoreError::Unavailable))));
    let (engine, _) = feed(vec![
        Event::Listing(Ok(two_listed())),
        Event::Mapping(Ok(Some(mapping_of(1, 5)))),
        Event::Detail(Ok(listed(1, "A", "2024-01-02"))),
        Event::LastSeen(Ok(None)),
        Event::Posted(Ok(())),
        Event::Recorded(Err(StoreError::Unavailable)),
    ]);
    assert_eq!(engine.outcome(0), Some(Outcome::Failed(Failure::Store(StoreError::Unavailable))));
}

#[test]
fn negative_stored_thread_is_posted_to_with_its_bits() {
    let (_, action) = feed(vec![
        Event::Listing(Ok(two_listed())),
        Event::Mapping(Ok(Some(mapping_of(1, -1)))),
        Event::Detail(Ok(listed(1, "A", "2024-01-02"))),
        Event::LastSeen(Ok(None)),
    ]);
    assert_eq!(
        action,
        Action::PostUpdate { thread_id: u64::MAX, content: "this is some contents".to_string() }
    );
}

#[test]
fn large_thread_id_is_stored_with_its_bits() {
    let (_, action) = feed(vec![
        Event::Listing(Ok(two_listed())),
        Event::Mapping(Ok(None)),
        Event::Detail(Ok(listed(1, "A", "2024-01-01"))),
        Event::ThreadCreated(Ok(1092090816178171935)),
    ]);
    assert_eq!(action, Action::CreateMapping { division_id: 1, thread_id: 1092090816178171935 });
    let (_, action) = feed(vec![
        Event::Listing(Ok(two_listed())),
        Event::Mapping(Ok(None)),
        Event::Detail(Ok(listed(1, "A", "2024-01-01"))),
        Event::ThreadCreated(Ok(u64::MAX - 1)),
    ]);
    assert_eq!(action, Action::CreateMapping { division_id: 1, thread_id: -2 });
}

#[test]
fn deadline_ends_the_pass_where_it_stands() {
    let (engine, action) = feed(vec![
        Event::Listing(Ok(two_listed())),
        Event::Mapping(Err(StoreError::Unavailable)),
        Event::Mapping(Ok(None)),
        Event::DeadlinePassed,
    ]);
    assert_eq!(action, Action::Finish(PassEnd::TimedOut));
    assert_eq!(engine.end(), Some(PassEnd::TimedOut));
    assert_eq!(engine.processed(), 1);
}

#[test]
fn an_answer_to_another_call_is_ignored() {
    let (engine, action) = feed(vec![
        Event::Listing(Ok(two_listed())),
        Event::Posted(Ok(())),
        Event::Detail(Ok(listed(1, "A", "2024-01-01"))),
    ]);
    assert_eq!(action, Action::FindMapping { division_id: 1 });
    assert_eq!(engine.processed(), 0);
}

#[test]
fn a_finished_pass_stays_finished() {
    let (engine, action) = feed(vec![
        Event::Listing(Ok(Vec::new())),
        Event::Listing(Ok(two_listed())),
        Event::DeadlinePassed,
    ]);
    assert_eq!(action, Action::Finish(PassEnd::Completed));
    assert_eq!(engine.end(), Some(PassEnd::Completed));
}

#[test]
fn created_division_has_its_marker_recorded_first() {
    let (engine, action) = feed(vec![
        Event::Listing(Ok(two_listed())),
        Event::Mapping(Ok(None)),
        Event::Detail(Ok(listed(1, "A", "2024-01-01"))),
        Event::ThreadCreated(Ok(31)),
        Event::MappingCreated(Ok(mapping_of(1, 31))),
    ]);
    assert_eq!(
        action,
        Action::RecordUpdateSeen { division_id: 1, publication_updated: "2024-01-01".to_string() }
    );
    assert_eq!(engine.processed(), 0);
    let next = engine.step(Event::Recorded(Ok(())));
    assert_eq!(next.1, Action::FindMapping { division_id: 2 });
    assert_eq!(next.0.outcome(0), Some(Outcome::Created { thread_id: 31 }));
}

#[test]
fn failed_first_marker_fails_the_division() {
    let (engine, action) = feed(vec![
        Event::Listing(Ok(two_listed())),
        Event::Mapping(Ok(None)),
        Event::Detail(Ok(listed(1, "A", "2024-01-01"))),
        Event::ThreadCreated(Ok(31)),
        Event::MappingCreated(Ok(mapping_of(1, 31))),
        Event::Recorded(Err(StoreError::Unavailable)),
    ]);
    assert_eq!(action, Action::FindMapping { division_id: 2 });
    assert_eq!(engine.outcome(0), Some(Outcome::Failed(Failure::Store(StoreError::Unavailable))));
}
