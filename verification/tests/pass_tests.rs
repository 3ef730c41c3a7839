use opengov_bot::engine::{Action, Engine, Outcome, PassEnd};
use opengov_bot::errors::{Failure, PlatformError};
use opengov_bot::model::{Division, DivisionRecord};
use opengov_bot::pass::World;
use opengov_bot::platform::Post;

fn record(division_id: i32, title: &str, publication_updated: &str) -> DivisionRecord {
    DivisionRecord {
        division_id,
        title: title.to_string(),
        publication_updated: publication_updated.to_string(),
    }
}

fn three_divisions() -> Vec<DivisionRecord> {
    vec![
        record(101, "Budget Vote", "2024-03-01"),
        record(102, "Finance Bill", "2024-03-02"),
        record(103, "Data Protection", "2024-03-03"),
    ]
}

/// Runs a pass call by call and returns every call the engine asked for.
fn calls_of_a_pass(world: &mut World) -> Vec<Action> {
    let mut calls = Vec::new();
    let mut engine = Engine::start();
    let mut action = engine.pending();
    loop {
        calls.push(action.clone());
        match world.perform(&action) {
            None => break,
            Some(event) => {
                let next = engine.step(event);
                engine = next.0;
                action = next.1;
            }
        }
    }
    calls
}

#[test]
fn budget_vote_on_an_empty_store_opens_one_thread() {
    let mut world = World::new(vec![record(101, "Budget Vote", "2024-03-01")]);
    let calls = calls_of_a_pass(&mut world);
    assert_eq!(
        calls,
        vec![
            Action::FetchListing,
            Action::FindMapping { division_id: 101 },
            Action::FetchDivision { division_id: 101 },
            Action::CreateThread { title: "Budget Vote".to_string() },
            Action::CreateMapping { division_id: 101, thread_id: 0 },
            Action::RecordUpdateSeen {
                division_id: 101,
                publication_updated: "2024-03-01".to_string()
            },
            Action::Finish(PassEnd::Completed),
        ]
    );
    assert_eq!(world.board.thread_count(), 1);
    assert_eq!(world.board.title_of(0), Some("Budget Vote".to_string()));
    assert_eq!(world.board.post_count(), 0);
    assert_eq!(
        world.store.mappings(),
        vec![Division { id: 1, division_id: 101, discord_thread_id: 0 }]
    );
    assert_eq!(world.store.marker_count(), 1);
    assert_eq!(world.store.last_seen(101), Some("2024-03-01".to_string()));
}

#[test]
fn run_pass_on_budget_vote_reports_created() {
    let mut world = World::new(vec![record(101, "Budget Vote", "2024-03-01")]);
    let outcomes = world.run_pass();
    assert_eq!(outcomes, vec![Outcome::Created { thread_id: 0 }]);
    assert_eq!(world.store.len(), 1);
    assert_eq!(
        world.store.find_mapping(101),
        Some(Division { id: 1, division_id: 101, discord_thread_id: 0 })
    );
}

#[test]
fn fresh_pass_tracks_every_division_with_its_own_thread() {
    let mut world = World::new(three_divisions());
    let outcomes = world.run_pass();
    assert_eq!(
        outcomes,
        vec![
            Outcome::Created { thread_id: 0 },
            Outcome::Created { thread_id: 1 },
            Outcome::Created { thread_id: 2 },
        ]
    );
    assert_eq!(
        world.store.mappings(),
        vec![
            Division { id: 1, division_id: 101, discord_thread_id: 0 },
            Division { id: 2, division_id: 102, discord_thread_id: 1 },
            Division { id: 3, division_id: 103, discord_thread_id: 2 },
        ]
    );
    assert_eq!(world.board.thread_count(), 3);
    assert_eq!(world.board.title_of(1), Some("Finance Bill".to_string()));
    assert_eq!(world.board.title_of(2), Some("Data Protection".to_string()));
}

#[test]
fn first_pass_records_the_marker_of_every_division_it_creates() {
    let mut world = World::new(three_divisions());
    world.run_pass();
    assert_eq!(world.store.marker_count(), 3);
    assert_eq!(world.store.last_seen(101), Some("2024-03-01".to_string()));
    assert_eq!(world.store.last_seen(102), Some("2024-03-02".to_string()));
    assert_eq!(world.store.last_seen(103), Some("2024-03-03".to_string()));
    assert_eq!(world.board.post_count(), 0);
}

#[test]
fn second_pass_changes_nothing() {
    let mut world = World::new(three_divisions());
    world.run_pass();
    let mappings = world.store.mappings();
    let outcomes = world.run_pass();
    assert_eq!(outcomes, vec![Outcome::Unchanged, Outcome::Unchanged, Outcome::Unchanged]);
    assert_eq!(world.board.thread_count(), 3);
    assert_eq!(world.board.post_count(), 0);
    assert_eq!(world.store.mappings(), mappings);
    assert_eq!(world.store.marker_count(), 3);
    assert_eq!(world.store.last_seen(102), Some("2024-03-02".to_string()));
}

#[test]
fn budget_vote_run_twice_adds_no_row() {
    let mut world = World::new(vec![record(101, "Budget Vote", "2024-03-01")]);
    assert_eq!(world.run_pass(), vec![Outcome::Created { thread_id: 0 }]);
    assert_eq!(world.store.len(), 1);
    assert_eq!(world.store.marker_count(), 1);
    assert_eq!(world.run_pass(), vec![Outcome::Unchanged]);
    assert_eq!(world.store.len(), 1);
    assert_eq!(world.store.marker_count(), 1);
    assert_eq!(world.board.thread_count(), 1);
    assert_eq!(world.board.post_count(), 0);
}

#[test]
fn second_pass_asks_only_for_what_it_reads() {
    let mut world = World::new(three_divisions());
    world.run_pass();
    let calls = calls_of_a_pass(&mut world);
    assert_eq!(
        calls,
        vec![
            Action::FetchListing,
            Action::FindMapping { division_id: 101 },
            Action::FetchDivision { division_id: 101 },
            Action::LoadLastSeen { division_id: 101 },
            Action::FindMapping { division_id: 102 },
            Action::FetchDivision { division_id: 102 },
            Action::LoadLastSeen { division_id: 102 },
            Action::FindMapping { division_id: 103 },
            Action::FetchDivision { division_id: 103 },
            Action::LoadLastSeen { division_id: 103 },
            Action::Finish(PassEnd::Completed),
        ]
    );
    assert_eq!(world.board.thread_count(), 3);
    assert_eq!(world.board.post_count(), 0);
    assert_eq!(world.store.len(), 3);
    assert_eq!(world.store.marker_count(), 3);
}

#[test]
fn a_division_that_moved_after_its_creation_gets_one_post() {
    let mut world = World::new(vec![record(101, "Budget Vote", "2024-01-01")]);
    assert_eq!(world.run_pass(), vec![Outcome::Created { thread_id: 0 }]);
    world.source = vec![record(101, "Budget Vote", "2024-01-02")];
    assert_eq!(world.run_pass(), vec![Outcome::Updated]);
    assert_eq!(world.board.post_count(), 1);
    assert_eq!(
        world.board.post_at(0),
        Some(Post { thread_id: 0, content: "this is some contents".to_string() })
    );
    assert_eq!(world.store.marker_count(), 1);
    assert_eq!(world.store.last_seen(101), Some("2024-01-02".to_string()));
    assert_eq!(world.run_pass(), vec![Outcome::Unchanged]);
    assert_eq!(world.board.post_count(), 1);
}

#[test]
fn unchanged_marker_posts_nothing() {
    let mut world = World::new(vec![record(7, "Housing", "2024-01-01")]);
    assert_eq!(world.store.create_mapping(7, 0).map(|row| row.id), Ok(1));
    world.board.create_thread("Housing");
    assert_eq!(world.store.record_update_seen(7, "2024-01-01"), Ok(()));
    let outcomes = world.run_pass();
    assert_eq!(outcomes, vec![Outcome::Unchanged]);
    assert_eq!(world.board.post_count(), 0);
    assert_eq!(world.store.marker_count(), 1);
    assert_eq!(world.store.last_seen(7), Some("2024-01-01".to_string()));
}

#[test]
fn changed_marker_posts_once_and_is_recorded() {
    let mut world = World::new(vec![record(7, "Housing", "2024-01-02")]);
    assert_eq!(world.store.create_mapping(7, 0).map(|row| row.id), Ok(1));
    world.board.create_thread("Housing");
    assert_eq!(world.store.record_update_seen(7, "2024-01-01"), Ok(()));
    let calls = calls_of_a_pass(&mut world);
    assert_eq!(
        calls,
        vec![
            Action::FetchListing,
            Action::FindMapping { division_id: 7 },
            Action::FetchDivision { division_id: 7 },
            Action::LoadLastSeen { division_id: 7 },
            Action::PostUpdate { thread_id: 0, content: "this is some contents".to_string() },
            Action::RecordUpdateSeen {
                division_id: 7,
                publication_updated: "2024-01-02".to_string()
            },
            Action::Finish(PassEnd::Completed),
        ]
    );
    assert_eq!(world.board.post_count(), 1);
    assert_eq!(
        world.board.post_at(0),
        Some(Post { thread_id: 0, content: "this is some contents".to_string() })
    );
    assert_eq!(world.store.marker_count(), 1);
    assert_eq!(world.store.last_seen(7), Some("2024-01-02".to_string()));
    assert_eq!(world.board.thread_count(), 1);
    assert_eq!(world.store.len(), 1);
}

#[test]
fn mapping_to_a_missing_thread_fails_that_division_only() {
    let mut world = World::new(vec![
        record(7, "Housing", "2024-01-02"),
        record(8, "Transport", "2024-01-05"),
    ]);
    assert_eq!(world.store.create_mapping(7, 55).map(|row| row.id), Ok(1));
    let outcomes = world.run_pass();
    assert_eq!(
        outcomes,
        vec![
            Outcome::Failed(Failure::Platform(PlatformError::ThreadNotFound)),
            Outcome::Created { thread_id: 0 },
        ]
    );
    assert_eq!(world.store.last_seen(7), None);
    assert_eq!(
        world.store.find_mapping(8),
        Some(Division { id: 2, division_id: 8, discord_thread_id: 0 })
    );
}

#[test]
fn a_division_listed_twice_is_created_once() {
    let mut world = World::new(vec![
        record(9, "Energy", "2024-02-01"),
        record(9, "Energy", "2024-02-01"),
    ]);
    let outcomes = world.run_pass();
    assert_eq!(outcomes, vec![Outcome::Created { thread_id: 0 }, Outcome::Unchanged]);
    assert_eq!(world.store.len(), 1);
    assert_eq!(world.board.thread_count(), 1);
    assert_eq!(world.board.post_count(), 0);
    assert_eq!(world.store.marker_count(), 1);
}

#[test]
fn empty_listing_completes_at_once() {
    let mut world = World::new(Vec::new());
    let calls = calls_of_a_pass(&mut world);
    assert_eq!(calls, vec![Action::FetchListing, Action::Finish(PassEnd::Completed)]);
    assert_eq!(world.run_pass(), Vec::new());
    assert_eq!(world.store.len(), 0);
}
