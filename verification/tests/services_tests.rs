use opengov_bot::errors::{Failure, PlatformError, SourceError, StoreError};
use opengov_bot::model::{
    duplicate_records, Division, DivisionRecord, DivisionUpdate, NewDivision, NewDivisionUpdate,
};
use opengov_bot::platform::{
    platform_failure, platform_thread_id, stored_thread_id, update_content, Post, ThreadBoard,
    HUB_CHANNEL_ID,
};
use opengov_bot::schedule::{
    PassGuard, CALL_TIMEOUT_SECONDS, PASS_BUDGET_SECONDS, PASS_INTERVAL_SECONDS,
};
use opengov_bot::source::{
    detail, division_uri, division_url, listing_uri, listing_url, parsed_address, source_failure,
};
use opengov_bot::store::DivisionStore;

fn entry(division_id: i32, title: &str, publication_updated: &str) -> DivisionRecord {
    DivisionRecord {
        division_id,
        title: title.to_string(),
        publication_updated: publication_updated.to_string(),
    }
}

#[test]
fn second_create_for_a_division_is_refused() {
    let mut store = DivisionStore::new();
    assert_eq!(
        store.create_mapping(101, 500),
        Ok(Division { id: 1, division_id: 101, discord_thread_id: 500 })
    );
    assert_eq!(store.create_mapping(101, 501), Err(StoreError::DuplicateMapping));
    assert_eq!(store.len(), 1);
    assert_eq!(
        store.mappings(),
        vec![Division { id: 1, division_id: 101, discord_thread_id: 500 }]
    );
    assert_eq!(
        store.find_mapping(101),
        Some(Division { id: 1, division_id: 101, discord_thread_id: 500 })
    );
}

#[test]
fn store_numbers_its_rows_from_one() {
    let mut store = DivisionStore::new();
    assert_eq!(store.find_mapping(5), None);
    assert_eq!(
        store.insert(NewDivision { division_id: 5, discord_thread_id: 9 }),
        Ok(Division { id: 1, division_id: 5, discord_thread_id: 9 })
    );
    assert_eq!(
        store.insert(NewDivision { division_id: 6, discord_thread_id: -3 }),
        Ok(Division { id: 2, division_id: 6, discord_thread_id: -3 })
    );
    assert_eq!(
        store.find_mapping(6),
        Some(Division { id: 2, division_id: 6, discord_thread_id: -3 })
    );
    assert_eq!(store.find_mapping(7), None);
}

#[test]
fn marker_is_written_then_overwritten() {
    let mut store = DivisionStore::new();
    assert_eq!(store.create_mapping(5, 9).is_ok(), true);
    assert_eq!(store.create_mapping(6, 10).is_ok(), true);
    assert_eq!(store.last_seen(5), None);
    assert_eq!(store.record_update_seen(5, "2024-01-01"), Ok(()));
    assert_eq!(store.record_update_seen(6, "2024-02-01"), Ok(()));
    assert_eq!(store.marker_count(), 2);
    assert_eq!(store.record_update_seen(5, "2024-01-02"), Ok(()));
    assert_eq!(store.marker_count(), 2);
    assert_eq!(store.last_seen(5), Some("2024-01-02".to_string()));
    assert_eq!(store.last_seen(6), Some("2024-02-01".to_string()));
    assert_eq!(
        store.upsert(NewDivisionUpdate { division_id: 6, publication_updated: "2024-02-09" }),
        Ok(())
    );
    assert_eq!(store.last_seen(6), Some("2024-02-09".to_string()));
}

#[test]
fn marker_of_an_untracked_division_is_refused() {
    let mut store = DivisionStore::new();
    assert_eq!(store.record_update_seen(5, "2024-01-01"), Err(StoreError::Unavailable));
    assert_eq!(store.marker_count(), 0);
    assert_eq!(store.last_seen(5), None);
}

#[test]
fn new_rows_take_the_id_they_are_given() {
    let new = NewDivision { division_id: 4, discord_thread_id: 8 };
    assert_eq!(new.with_id(3), Division { id: 3, division_id: 4, discord_thread_id: 8 });
    let update = NewDivisionUpdate { division_id: 4, publication_updated: "2024-05-05" };
    assert_eq!(
        update.with_id(2),
        DivisionUpdate { id: 2, division_id: 4, publication_updated: "2024-05-05".to_string() }
    );
}

#[test]
fn records_are_copied_as_they_are() {
    let records = vec![entry(1, "A", "x"), entry(2, "B", "y")];
    assert_eq!(records[1].duplicate(), entry(2, "B", "y"));
    assert_eq!(duplicate_records(&records), records);
}

#[test]
fn board_numbers_threads_from_zero() {
    let mut board = ThreadBoard::new();
    assert_eq!(board.create_thread("first"), 0);
    assert_eq!(board.create_thread("second"), 1);
    assert_eq!(board.thread_count(), 2);
    assert_eq!(board.title_of(1), Some("second".to_string()));
    assert_eq!(board.title_of(2), None);
}

#[test]
fn post_into_a_missing_thread_is_refused() {
    let mut board = ThreadBoard::new();
    assert_eq!(board.post_update(0, "hello"), Err(PlatformError::ThreadNotFound));
    assert_eq!(board.post_count(), 0);
    board.create_thread("first");
    assert_eq!(board.post_update(0, "hello"), Ok(()));
    assert_eq!(board.post_update(1, "hello"), Err(PlatformError::ThreadNotFound));
    assert_eq!(board.post_count(), 1);
    assert_eq!(board.post_at(0), Some(Post { thread_id: 0, content: "hello".to_string() }));
    assert_eq!(board.post_at(1), None);
}

#[test]
fn thread_ids_are_stored_with_their_bits() {
    assert_eq!(stored_thread_id(0), 0);
    assert_eq!(stored_thread_id(1092090816178171935), 1092090816178171935);
    assert_eq!(stored_thread_id(9223372036854775807), i64::MAX);
    assert_eq!(stored_thread_id(9223372036854775808), i64::MIN);
    assert_eq!(stored_thread_id(u64::MAX), -1);
    assert_eq!(platform_thread_id(0), 0);
    assert_eq!(platform_thread_id(i64::MAX), 9223372036854775807);
    assert_eq!(platform_thread_id(i64::MIN), 9223372036854775808);
    assert_eq!(platform_thread_id(-1), u64::MAX);
    assert_eq!(platform_thread_id(stored_thread_id(12345678901234567890)), 12345678901234567890);
    assert_eq!(stored_thread_id(u64::MAX - 41), (u64::MAX - 41) as i64);
    assert_eq!(platform_thread_id(-42), (-42i64) as u64);
}

#[test]
fn hub_channel_and_update_text() {
    assert_eq!(HUB_CHANNEL_ID, 1092090816178171935);
    assert_eq!(update_content(), "this is some contents");
}

#[test]
fn urls_of_the_source() {
    assert_eq!(
        listing_url(),
        "https://commonsvotes-api.parliament.uk/data/divisions.json/search"
    );
    assert_eq!(
        division_url(101),
        "https://commonsvotes-api.parliament.uk/data/division/101.json"
    );
    assert_eq!(division_url(0), "https://commonsvotes-api.parliament.uk/data/division/0.json");
    assert_eq!(division_url(7), "https://commonsvotes-api.parliament.uk/data/division/7.json");
    assert_eq!(
        division_url(-15),
        "https://commonsvotes-api.parliament.uk/data/division/-15.json"
    );
    assert_eq!(
        division_url(i32::MAX),
        "https://commonsvotes-api.parliament.uk/data/division/2147483647.json"
    );
    assert_eq!(
        division_url(i32::MIN),
        "https://commonsvotes-api.parliament.uk/data/division/-2147483648.json"
    );
    assert_eq!(
        division_url(1090),
        format!("https://commonsvotes-api.parliament.uk/data/division/{:?}.json", 1090)
    );
}

#[test]
fn detail_is_the_first_record_of_the_division() {
    let records = vec![entry(1, "A", "x"), entry(2, "B", "y"), entry(2, "B again", "z")];
    assert_eq!(detail(&records, 2), Ok(entry(2, "B", "y")));
    assert_eq!(detail(&records, 1), Ok(entry(1, "A", "x")));
    assert_eq!(detail(&records, 3), Err(SourceError::NotFound));
    assert_eq!(detail(&Vec::new(), 1), Err(SourceError::NotFound));
}

#[test]
fn failures_are_logged_under_their_names() {
    assert_eq!(Failure::Source(SourceError::Unavailable).label(), "SourceUnavailable");
    assert_eq!(Failure::Source(SourceError::Malformed).label(), "SourceMalformed");
    assert_eq!(Failure::Source(SourceError::NotFound).label(), "SourceNotFound");
    assert_eq!(Failure::Store(StoreError::Unavailable).label(), "StoreUnavailable");
    assert_eq!(Failure::Store(StoreError::DuplicateMapping).label(), "DuplicateMapping");
    assert_eq!(Failure::Platform(PlatformError::Unavailable).label(), "PlatformUnavailable");
    assert_eq!(Failure::Platform(PlatformError::Rejected).label(), "PlatformRejected");
    assert_eq!(Failure::Platform(PlatformError::ThreadNotFound).label(), "ThreadNotFound");
}

#[test]
fn a_tick_during_a_pass_is_skipped() {
    let mut guard = PassGuard::new(30);
    assert_eq!(PASS_INTERVAL_SECONDS, 60);
    assert!(!guard.is_running());
    assert!(guard.tick(100));
    assert!(guard.is_running());
    assert!(!guard.tick(160));
    assert!(!guard.tick(220));
    guard.finish();
    assert!(!guard.is_running());
    assert!(guard.tick(280));
}

#[test]
fn a_pass_times_out_when_its_budget_is_spent() {
    let mut guard = PassGuard::new(30);
    assert!(!guard.timed_out(1000));
    assert!(guard.tick(100));
    assert!(!guard.timed_out(100));
    assert!(!guard.timed_out(129));
    assert!(guard.timed_out(130));
    assert!(guard.timed_out(500));
    assert!(!guard.timed_out(50));
    guard.finish();
    assert!(!guard.timed_out(500));
    let mut hasty = PassGuard::new(0);
    assert!(hasty.tick(10));
    assert!(hasty.timed_out(5));
}

#[test]
fn addresses_are_parsed_for_the_client() {
    let address = division_uri(101).expect("an address");
    assert_eq!(address.scheme_str(), Some("https"));
    assert_eq!(address.host(), Some("commonsvotes-api.parliament.uk"));
    assert_eq!(address.path(), "/data/division/101.json");
    assert_eq!(
        address.to_string(),
        "https://commonsvotes-api.parliament.uk/data/division/101.json"
    );
    let address = division_uri(-15).expect("an address");
    assert_eq!(address.path(), "/data/division/-15.json");
    let address = listing_uri().expect("an address");
    assert_eq!(address.path(), "/data/divisions.json/search");
    assert_eq!(
        address.to_string(),
        "https://commonsvotes-api.parliament.uk/data/divisions.json/search"
    );
}

#[test]
fn a_text_that_is_no_address_is_unavailable() {
    assert_eq!(parsed_address("".parse::<hyper::Uri>()), Err(SourceError::Unavailable));
    assert_eq!(
        parsed_address("https://exa mple.org/".parse::<hyper::Uri>()),
        Err(SourceError::Unavailable)
    );
    let address = parsed_address("https://example.org/a?b=1".parse::<hyper::Uri>());
    assert_eq!(address.map(|uri| uri.to_string()), Ok("https://example.org/a?b=1".to_string()));
}

#[test]
fn platform_failures_by_status() {
    assert_eq!(platform_failure(Some(404), true), PlatformError::ThreadNotFound);
    assert_eq!(platform_failure(Some(404), false), PlatformError::Rejected);
    assert_eq!(platform_failure(Some(403), true), PlatformError::Rejected);
    assert_eq!(platform_failure(Some(429), false), PlatformError::Rejected);
    assert_eq!(platform_failure(Some(400), false), PlatformError::Rejected);
    assert_eq!(platform_failure(Some(499), true), PlatformError::Rejected);
    assert_eq!(platform_failure(Some(401), true), PlatformError::Unavailable);
    assert_eq!(platform_failure(Some(500), false), PlatformError::Unavailable);
    assert_eq!(platform_failure(Some(399), false), PlatformError::Unavailable);
    assert_eq!(platform_failure(Some(200), true), PlatformError::Unavailable);
    assert_eq!(platform_failure(None, true), PlatformError::Unavailable);
    assert_eq!(platform_failure(None, false), PlatformError::Unavailable);
}

#[test]
fn source_failures_by_status() {
    assert_eq!(source_failure(200), None);
    assert_eq!(source_failure(204), None);
    assert_eq!(source_failure(299), None);
    assert_eq!(source_failure(404), Some(SourceError::NotFound));
    assert_eq!(source_failure(199), Some(SourceError::Unavailable));
    assert_eq!(source_failure(300), Some(SourceError::Unavailable));
    assert_eq!(source_failure(403), Some(SourceError::Unavailable));
    assert_eq!(source_failure(500), Some(SourceError::Unavailable));
    assert_eq!(source_failure(0), Some(SourceError::Unavailable));
}

#[test]
fn a_pass_is_over_before_the_next_tick() {
    assert_eq!(PASS_BUDGET_SECONDS, 55);
    assert_eq!(CALL_TIMEOUT_SECONDS, 10);
    assert!(PASS_BUDGET_SECONDS < PASS_INTERVAL_SECONDS as u64);
    assert!(CALL_TIMEOUT_SECONDS < PASS_BUDGET_SECONDS);
}
