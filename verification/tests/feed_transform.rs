use transit_cache::{FeedEntity, FeedMessage, StopNames, StopTimeUpdate, TripUpdate};

fn directory() -> StopNames {
    let mut d = StopNames::new();
    d.add("631".to_string(), "Grand Central-42 St".to_string());
    d.add("127".to_string(), "Times Sq-42 St".to_string());
    d
}

fn one_trip_feed() -> FeedMessage {
    FeedMessage {
        header_timestamp: Some(1700000000),
        entities: vec![FeedEntity {
            trip_update: Some(TripUpdate {
                route_id: Some("6".to_string()),
                stop_time_updates: vec![StopTimeUpdate {
                    stop_id: Some("631".to_string()),
                    arrival_time: Some(1000),
                    departure_time: Some(1010),
                }],
            }),
        }],
    }
}

#[test]
fn one_trip_no_filter_yields_one_entry() {
    let msg = one_trip_feed();
    let stops = directory();
    let (ts, entries) = transit_cache::transform(&msg, &stops, &String::new());
    assert_eq!(ts, 1700000000);
    assert_eq!(entries.len(), 1);
    assert_eq!(entries[0].stop, "Grand Central-42 St");
    assert_eq!(entries[0].line, "6");
    assert_eq!(entries[0].direction, "631");
    assert_eq!(entries[0].arriving_at, 1000);
    assert_eq!(entries[0].leaving_at, 1010);
}

#[test]
fn mismatching_filter_yields_empty_list() {
    let msg = one_trip_feed();
    let stops = directory();
    let (_, entries) =
        transit_cache::transform(&msg, &stops, &"Times Sq-42 St".to_string());
    assert!(entries.is_empty());
}

#[test]
fn matching_filter_keeps_the_entry() {
    let msg = one_trip_feed();
    let stops = directory();
    let (_, entries) =
        transit_cache::transform(&msg, &stops, &"Grand Central-42 St".to_string());
    assert_eq!(entries.len(), 1);
    assert_eq!(entries[0].stop, "Grand Central-42 St");
}

#[test]
fn missing_fields_become_sentinels_and_zero_times() {
    let msg = FeedMessage {
        header_timestamp: None,
        entities: vec![FeedEntity {
            trip_update: Some(TripUpdate {
                route_id: None,
                stop_time_updates: vec![StopTimeUpdate {
                    stop_id: None,
                    arrival_time: None,
                    departure_time: None,
                }],
            }),
        }],
    };
    let stops = directory();
    let (ts, entries) = transit_cache::transform(&msg, &stops, &String::new());
    assert_eq!(ts, 0);
    assert_eq!(entries.len(), 1);
    assert_eq!(entries[0].stop, "??");
    assert_eq!(entries[0].line, "Unknown");
    assert_eq!(entries[0].direction, "??");
    assert_eq!(entries[0].arriving_at, 0);
    assert_eq!(entries[0].leaving_at, 0);
}

#[test]
fn unresolved_stop_id_keeps_raw_direction_and_sentinel_stop() {
    let msg = FeedMessage {
        header_timestamp: Some(5),
        entities: vec![FeedEntity {
            trip_update: Some(TripUpdate {
                route_id: Some("Q".to_string()),
                stop_time_updates: vec![StopTimeUpdate {
                    stop_id: Some("zzz".to_string()),
                    arrival_time: Some(7),
                    departure_time: None,
                }],
            }),
        }],
    };
    let stops = directory();
    let (_, entries) = transit_cache::transform(&msg, &stops, &String::new());
    assert_eq!(entries.len(), 1);
    assert_eq!(entries[0].stop, "??");
    assert_eq!(entries[0].direction, "zzz");
    assert_eq!(entries[0].leaving_at, 0);
}

#[test]
fn unresolved_name_never_matches_a_nonempty_filter() {
    let msg = FeedMessage {
        header_timestamp: Some(5),
        entities: vec![FeedEntity {
            trip_update: Some(TripUpdate {
                route_id: Some("Q".to_string()),
                stop_time_updates: vec![StopTimeUpdate {
                    stop_id: Some("zzz".to_string()),
                    arrival_time: Some(7),
                    departure_time: None,
                }],
            }),
        }],
    };
    let stops = directory();
    let (_, entries) = transit_cache::transform(&msg, &stops, &"??".to_string());
    assert!(entries.is_empty());
}

#[test]
fn entities_without_trip_updates_are_ignored() {
    let mut msg = one_trip_feed();
    msg.entities.insert(0, FeedEntity { trip_update: None });
    msg.entities.push(FeedEntity { trip_update: None });
    let stops = directory();
    let (_, entries) = transit_cache::transform(&msg, &stops, &String::new());
    assert_eq!(entries.len(), 1);
    assert_eq!(entries[0].line, "6");
}

#[test]
fn feed_encounter_order_is_preserved() {
    let msg = FeedMessage {
        header_timestamp: Some(9),
        entities: vec![
            FeedEntity {
                trip_update: Some(TripUpdate {
                    route_id: Some("6".to_string()),
                    stop_time_updates: vec![
                        StopTimeUpdate {
                            stop_id: Some("631".to_string()),
                            arrival_time: Some(300),
                            departure_time: Some(310),
                        },
                        StopTimeUpdate {
                            stop_id: Some("127".to_string()),
                            arrival_time: Some(100),
                            departure_time: Some(110),
                        },
                    ],
                }),
            },
            FeedEntity {
                trip_update: Some(TripUpdate {
                    route_id: Some("7".to_string()),
                    stop_time_updates: vec![StopTimeUpdate {
                        stop_id: Some("631".to_string()),
                        arrival_time: Some(200),
                        departure_time: Some(210),
                    }],
                }),
            },
        ],
    };
    let stops = directory();
    let (_, entries) = transit_cache::transform(&msg, &stops, &String::new());
    assert_eq!(entries.len(), 3);
    assert_eq!(entries[0].arriving_at, 300);
    assert_eq!(entries[1].arriving_at, 100);
    assert_eq!(entries[2].arriving_at, 200);
}
