use transit_cache::{
    CycleError, FeedEntity, FeedMessage, SnapshotStore, StopNames, StopTimeUpdate, TripUpdate,
};

fn directory() -> StopNames {
    let mut d = StopNames::new();
    d.add("631".to_string(), "Grand Central-42 St".to_string());
    d
}

fn one_trip_feed() -> FeedMessage {
    FeedMessage {
        header_timestamp: Some(1700000000),
        entities: vec![FeedEntity {
            trip_update: Some(TripUpdate {
                route_id: Some("6".to_string()),
                stop_time_updates: vec![StopTimeUpdate {
                    stop_id: Some("631".to_string()),
                    arrival_time: Some(1000),
                    departure_time: Some(1010),
                }],
            }),
        }],
    }
}

#[test]
fn new_store_holds_the_empty_snapshot() {
    let store = SnapshotStore::new();
    let s = store.current();
    assert_eq!(s.sample_time, 0);
    assert_eq!(s.feed_timestamp, 0);
    assert!(transit_cache::list_stops(s).is_empty());
}

#[test]
fn publish_replaces_the_snapshot_wholesale() {
    let mut store = SnapshotStore::new();
    let entries = vec![transit_cache::Entry {
        stop: "X".to_string(),
        line: "1".to_string(),
        direction: "d".to_string(),
        arriving_at: 10,
        leaving_at: 20,
    }];
    store.publish(transit_cache::build_snapshot(&entries, 7, 9));
    let s = store.current();
    assert_eq!(s.sample_time, 9);
    assert_eq!(s.feed_timestamp, 7);
    assert_eq!(transit_cache::list_stops(s), vec!["X".to_string()]);
}

#[test]
fn successful_cycle_publishes_the_transformed_feed() {
    let mut store = SnapshotStore::new();
    let stops = directory();
    transit_cache::refresh_cycle(&mut store, &stops, Ok(one_trip_feed()), 900);
    let s = store.current();
    assert_eq!(s.sample_time, 900);
    assert_eq!(s.feed_timestamp, 1700000000);
    let r = transit_cache::entries_from(s, &"Grand Central-42 St".to_string(), false, 0);
    assert_eq!(r.len(), 1);
    assert_eq!(r[0].line, "6");
    assert_eq!(r[0].direction, "631");
    assert_eq!(r[0].arriving_at, 1000);
    assert_eq!(r[0].leaving_at, 1010);
}

#[test]
fn transport_failure_retains_the_previous_snapshot() {
    let mut store = SnapshotStore::new();
    let stops = directory();
    transit_cache::refresh_cycle(&mut store, &stops, Ok(one_trip_feed()), 900);

    let before = store.current();
    let before_sample = before.sample_time;
    let before_feed = before.feed_timestamp;
    let before_stops = transit_cache::list_stops(before);
    let before_entries =
        transit_cache::entries_from(before, &"Grand Central-42 St".to_string(), false, 0);

    transit_cache::refresh_cycle(&mut store, &stops, Err(CycleError::Transport), 1200);

    let after = store.current();
    assert_eq!(after.sample_time, before_sample);
    assert_eq!(after.feed_timestamp, before_feed);
    assert_eq!(transit_cache::list_stops(after), before_stops);
    let after_entries =
        transit_cache::entries_from(after, &"Grand Central-42 St".to_string(), false, 0);
    assert_eq!(after_entries.len(), before_entries.len());
    assert_eq!(after_entries[0].arriving_at, before_entries[0].arriving_at);
}

#[test]
fn decode_failure_retains_the_previous_snapshot() {
    let mut store = SnapshotStore::new();
    let stops = directory();
    transit_cache::refresh_cycle(&mut store, &stops, Ok(one_trip_feed()), 900);
    transit_cache::refresh_cycle(&mut store, &stops, Err(CycleError::Decode), 1200);
    let after = store.current();
    assert_eq!(after.sample_time, 900);
    assert_eq!(after.feed_timestamp, 1700000000);
}

#[test]
fn a_later_success_supersedes_the_snapshot_in_full() {
    let mut store = SnapshotStore::new();
    let stops = directory();
    transit_cache::refresh_cycle(&mut store, &stops, Ok(one_trip_feed()), 900);
    let empty_feed = FeedMessage { header_timestamp: Some(3), entities: Vec::new() };
    transit_cache::refresh_cycle(&mut store, &stops, Ok(empty_feed), 950);
    let s = store.current();
    assert_eq!(s.sample_time, 950);
    assert_eq!(s.feed_timestamp, 3);
    assert!(transit_cache::list_stops(s).is_empty());
    assert!(
        transit_cache::entries_from(s, &"Grand Central-42 St".to_string(), false, 0).is_empty()
    );
}

#[test]
fn reads_around_a_publish_see_one_snapshot_in_full() {
    let mut store = SnapshotStore::new();
    let stops = directory();

    let before = store.current();
    assert_eq!(before.sample_time, 0);
    assert_eq!(before.feed_timestamp, 0);
    assert!(transit_cache::list_stops(before).is_empty());

    transit_cache::refresh_cycle(&mut store, &stops, Ok(one_trip_feed()), 900);

    let after = store.current();
    // every field comes from the newly published snapshot, none from the old
    assert_eq!(after.sample_time, 900);
    assert_eq!(after.feed_timestamp, 1700000000);
    assert_eq!(
        transit_cache::list_stops(after),
        vec!["Grand Central-42 St".to_string()]
    );
}

#[test]
fn directory_lookup_takes_the_first_matching_row() {
    let mut d = StopNames::new();
    d.add("631".to_string(), "First".to_string());
    d.add("631".to_string(), "Second".to_string());
    let msg = one_trip_feed();
    let (_, entries) = transit_cache::transform(&msg, &d, &String::new());
    assert_eq!(entries.len(), 1);
    assert_eq!(entries[0].stop, "First");
}

#[test]
fn grouping_splits_entries_by_stop_and_keeps_order() {
    let mk = |stop: &str, arriving: i64| transit_cache::Entry {
        stop: stop.to_string(),
        line: "L".to_string(),
        direction: "d".to_string(),
        arriving_at: arriving,
        leaving_at: arriving + 5,
    };
    let entries = vec![mk("A", 1), mk("B", 2), mk("A", 3)];
    let s = transit_cache::build_snapshot(&entries, 0, 0);
    let a = transit_cache::entries_from(&s, &"A".to_string(), false, 0);
    let b = transit_cache::entries_from(&s, &"B".to_string(), false, 0);
    assert_eq!(a.len(), 2);
    assert_eq!(a[0].arriving_at, 1);
    assert_eq!(a[1].arriving_at, 3);
    assert_eq!(b.len(), 1);
    assert_eq!(b[0].arriving_at, 2);
}
