use transit_cache::{build_snapshot, Entry, Snapshot};

fn entry(stop: &str, line: &str, direction: &str, arriving: i64, leaving: i64) -> Entry {
    Entry {
        stop: stop.to_string(),
        line: line.to_string(),
        direction: direction.to_string(),
        arriving_at: arriving,
        leaving_at: leaving,
    }
}

fn sample_snapshot() -> Snapshot {
    let entries = vec![
        entry("Grand Central-42 St", "6", "631N", 1500, 1510),
        entry("Grand Central-42 St", "6", "631S", 2500, 2510),
        entry("Grand Central-42 St", "5", "631N", 3000, 3010),
        entry("Grand Central-42 St", "4", "631N", 1000, 1010),
        entry("Times Sq-42 St", "7", "127N", 2200, 2210),
    ];
    build_snapshot(&entries, 42, 2000)
}

#[test]
fn unknown_stop_yields_empty_list() {
    let s = sample_snapshot();
    let r = transit_cache::entries_from(&s, &"nonexistent-stop".to_string(), false, 0);
    assert!(r.is_empty());
    let r = transit_cache::entries_from(&s, &"nonexistent-stop".to_string(), true, 3);
    assert!(r.is_empty());
}

#[test]
fn no_filters_return_all_entries_in_order() {
    let s = sample_snapshot();
    let r = transit_cache::entries_from(&s, &"Grand Central-42 St".to_string(), false, 0);
    assert_eq!(r.len(), 4);
    assert_eq!(r[0].arriving_at, 1500);
    assert_eq!(r[1].arriving_at, 2500);
    assert_eq!(r[2].arriving_at, 3000);
    assert_eq!(r[3].arriving_at, 1000);
}

#[test]
fn future_only_drops_entries_arriving_before_sample_time() {
    let s = sample_snapshot();
    let r = transit_cache::entries_from(&s, &"Grand Central-42 St".to_string(), true, 0);
    assert_eq!(r.len(), 2);
    assert_eq!(r[0].arriving_at, 2500);
    assert_eq!(r[1].arriving_at, 3000);
}

#[test]
fn future_only_keeps_entry_arriving_exactly_at_sample_time() {
    let entries = vec![entry("X", "1", "d", 2000, 2005)];
    let s = build_snapshot(&entries, 0, 2000);
    let r = transit_cache::entries_from(&s, &"X".to_string(), true, 0);
    assert_eq!(r.len(), 1);
}

#[test]
fn past_entry_excluded_with_future_only_included_without() {
    let entries = vec![entry("X", "1", "d", 1000, 1005)];
    let s = build_snapshot(&entries, 0, 2000);
    let with_future = transit_cache::entries_from(&s, &"X".to_string(), true, 0);
    assert!(with_future.is_empty());
    let without = transit_cache::entries_from(&s, &"X".to_string(), false, 0);
    assert_eq!(without.len(), 1);
    assert_eq!(without[0].arriving_at, 1000);
}

#[test]
fn future_only_result_is_the_future_subset_of_the_unfiltered_result() {
    let s = sample_snapshot();
    let all = transit_cache::entries_from(&s, &"Grand Central-42 St".to_string(), false, 0);
    let future = transit_cache::entries_from(&s, &"Grand Central-42 St".to_string(), true, 0);
    let expected: Vec<i64> = all
        .iter()
        .filter(|e| e.arriving_at >= 2000)
        .map(|e| e.arriving_at)
        .collect();
    let got: Vec<i64> = future.iter().map(|e| e.arriving_at).collect();
    assert_eq!(got, expected);
}

#[test]
fn per_direction_limit_keeps_a_prefix_of_each_direction() {
    let s = sample_snapshot();
    let r = transit_cache::entries_from(&s, &"Grand Central-42 St".to_string(), false, 1);
    // first 631N entry and first 631S entry survive, later 631N entries drop
    assert_eq!(r.len(), 2);
    assert_eq!(r[0].direction, "631N");
    assert_eq!(r[0].arriving_at, 1500);
    assert_eq!(r[1].direction, "631S");
    assert_eq!(r[1].arriving_at, 2500);
}

#[test]
fn per_direction_limit_two_keeps_at_most_two_per_direction() {
    let s = sample_snapshot();
    let r = transit_cache::entries_from(&s, &"Grand Central-42 St".to_string(), false, 2);
    assert_eq!(r.len(), 3);
    let n_north = r.iter().filter(|e| e.direction == "631N").count();
    assert_eq!(n_north, 2);
    assert_eq!(r[0].arriving_at, 1500);
    assert_eq!(r[1].arriving_at, 2500);
    assert_eq!(r[2].arriving_at, 3000);
}

#[test]
fn zero_or_negative_limit_means_unlimited() {
    let s = sample_snapshot();
    let none = transit_cache::entries_from(&s, &"Grand Central-42 St".to_string(), false, 0);
    let negative = transit_cache::entries_from(&s, &"Grand Central-42 St".to_string(), false, -3);
    assert_eq!(none.len(), 4);
    assert_eq!(negative.len(), 4);
}

#[test]
fn limit_applies_after_the_future_filter() {
    let s = sample_snapshot();
    let r = transit_cache::entries_from(&s, &"Grand Central-42 St".to_string(), true, 1);
    // future entries are 2500 (631S) and 3000 (631N); each direction keeps one
    assert_eq!(r.len(), 2);
    assert_eq!(r[0].arriving_at, 2500);
    assert_eq!(r[1].arriving_at, 3000);
}

#[test]
fn list_stops_names_every_known_stop_once() {
    let s = sample_snapshot();
    let mut names = transit_cache::list_stops(&s);
    names.sort();
    assert_eq!(
        names,
        vec!["Grand Central-42 St".to_string(), "Times Sq-42 St".to_string()]
    );
}

#[test]
fn empty_snapshot_lists_no_stops() {
    let s = build_snapshot(&Vec::new(), 0, 0);
    assert!(transit_cache::list_stops(&s).is_empty());
    assert!(transit_cache::entries_from(&s, &"X".to_string(), false, 0).is_empty());
}
