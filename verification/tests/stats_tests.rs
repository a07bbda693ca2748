use trafficmon::stats::{TrafficData, TrafficStats, DEFAULT_RETENTION_NANOS};

const HOUR: u128 = 3_600_000_000_000;

#[test]
fn test_traffic_stats() {
    let mut stats = TrafficStats::new();

    stats.add_traffic("netflix", 1024, 10);
    stats.add_traffic("youtube", 2048, 20);
    stats.add_traffic("netflix", 512, 5);

    let result = stats.get_stats();
    assert_eq!(result.get("netflix").unwrap().0, 1536);
    assert_eq!(result.get("netflix").unwrap().1, 15);
    assert_eq!(result.get("youtube").unwrap().0, 2048);
    assert_eq!(result.get("youtube").unwrap().1, 20);
}

#[test]
fn test_reset_stats() {
    let mut stats = TrafficStats::new();

    stats.add_traffic("netflix", 1024, 10);
    stats.reset_stats();

    let result = stats.get_stats();
    assert!(result.is_empty());
}

#[test]
fn default_retention_is_one_hour() {
    assert_eq!(DEFAULT_RETENTION_NANOS, HOUR);
}

#[test]
fn totals_are_sums_per_label() {
    let mut stats = TrafficStats::new();
    stats.add_traffic_at("netflix", 1024, 10, 100);
    stats.add_traffic_at("youtube", 2048, 20, 110);
    stats.add_traffic_at("netflix", 512, 5, 120);
    let result = stats.get_stats_at(130);
    assert_eq!(result.len(), 2);
    assert_eq!(result.get("netflix"), Some(&(1536, 15)));
    assert_eq!(result.get("youtube"), Some(&(2048, 20)));
    assert_eq!(result.get("vimeo"), None);
}

#[test]
fn query_on_fresh_aggregator_is_empty() {
    let mut stats = TrafficStats::new();
    assert!(stats.get_stats().is_empty());
    assert!(stats.get_detailed_stats().is_empty());
    assert_eq!(stats.get_service_stats("netflix"), None);
}

#[test]
fn reset_forgets_history_too() {
    let mut stats = TrafficStats::new();
    stats.add_traffic_at("netflix", 1024, 10, 100);
    assert_eq!(stats.get_stats_at(200).len(), 1);
    stats.add_traffic_at("youtube", 1, 1, 300);
    stats.reset_stats();
    assert!(stats.get_stats_at(400).is_empty());
    assert!(stats.get_detailed_stats_at(400).is_empty());
    assert_eq!(stats.get_service_stats("netflix"), None);
}

#[test]
fn totals_add_up_across_windows() {
    let mut stats = TrafficStats::new();
    stats.add_traffic_at("netflix", 100, 1, 10);
    let first = stats.get_stats_at(20);
    assert_eq!(first.get("netflix"), Some(&(100, 1)));
    stats.add_traffic_at("netflix", 50, 2, 30);
    stats.add_traffic_at("dns", 7, 1, 35);
    let second = stats.get_stats_at(40);
    assert_eq!(second.get("netflix"), Some(&(150, 3)));
    assert_eq!(second.get("dns"), Some(&(7, 1)));
    let third = stats.get_stats_at(50);
    assert_eq!(third.get("netflix"), Some(&(150, 3)));
}

#[test]
fn detailed_stats_track_the_time_span() {
    let mut stats = TrafficStats::new();
    stats.add_traffic_at("netflix", 100, 1, 10);
    stats.add_traffic_at("netflix", 100, 1, 15);
    let first = stats.get_detailed_stats_at(20);
    assert_eq!(
        first.get("netflix"),
        Some(&TrafficData { bytes: 200, packets: 2, first_seen: 10, last_seen: 15 })
    );
    stats.add_traffic_at("netflix", 50, 2, 30);
    stats.add_traffic_at("dns", 7, 1, 35);
    let second = stats.get_detailed_stats_at(40);
    assert_eq!(
        second.get("netflix"),
        Some(&TrafficData { bytes: 250, packets: 4, first_seen: 10, last_seen: 30 })
    );
    assert_eq!(
        second.get("dns"),
        Some(&TrafficData { bytes: 7, packets: 1, first_seen: 35, last_seen: 35 })
    );
    for i in 0..second.len() {
        let bucket = second.value_at(i);
        assert!(bucket.first_seen <= bucket.last_seen);
    }
}

#[test]
fn detailed_stats_from_the_clock_are_ordered() {
    let mut stats = TrafficStats::new();
    stats.add_traffic("netflix", 1024, 10);
    stats.add_traffic("netflix", 512, 5);
    let detailed = stats.get_detailed_stats();
    let bucket = detailed.get("netflix").unwrap();
    assert_eq!(bucket.bytes, 1536);
    assert_eq!(bucket.packets, 15);
    assert!(bucket.first_seen > 0);
    assert!(bucket.first_seen <= bucket.last_seen);
}

#[test]
fn window_leaves_when_its_age_reaches_retention() {
    let mut stats = TrafficStats::new();
    stats.add_traffic_at("netflix", 1024, 10, 500);
    let closed_at: u128 = 1_000;
    assert_eq!(stats.get_stats_at(closed_at).get("netflix"), Some(&(1024, 10)));
    let just_before = stats.get_stats_at(closed_at + HOUR - 1);
    assert_eq!(just_before.get("netflix"), Some(&(1024, 10)));
    let at_retention = stats.get_stats_at(closed_at + HOUR);
    assert!(at_retention.is_empty());
    assert_eq!(stats.get_service_stats("netflix"), None);
}

#[test]
fn only_expired_windows_leave() {
    let mut stats = TrafficStats::new();
    stats.add_traffic_at("old", 1, 1, 0);
    assert_eq!(stats.get_stats_at(10).len(), 1);
    stats.add_traffic_at("new", 2, 2, HOUR);
    let result = stats.get_stats_at(HOUR + 10);
    assert_eq!(result.get("old"), None);
    assert_eq!(result.get("new"), Some(&(2, 2)));
}

#[test]
fn backward_clock_counts_as_no_time_elapsed() {
    let mut stats = TrafficStats::new();
    stats.add_traffic_at("netflix", 5, 1, 2 * HOUR);
    assert_eq!(stats.get_stats_at(2 * HOUR).len(), 1);
    let earlier = stats.get_stats_at(10);
    assert_eq!(earlier.get("netflix"), Some(&(5, 1)));
}

#[test]
fn service_stats_merge_open_and_closed_without_closing() {
    let mut stats = TrafficStats::new();
    stats.add_traffic_at("netflix", 100, 1, 10);
    assert_eq!(stats.get_stats_at(20).len(), 1);
    stats.add_traffic_at("netflix", 50, 2, 30);
    let expected = TrafficData { bytes: 150, packets: 3, first_seen: 10, last_seen: 30 };
    assert_eq!(stats.get_service_stats("netflix"), Some(expected));
    assert_eq!(stats.get_service_stats("netflix"), Some(expected));
    assert_eq!(stats.get_service_stats("youtube"), None);
    assert_eq!(stats.get_stats_at(40).get("netflix"), Some(&(150, 3)));
}

#[test]
fn service_stats_do_not_purge() {
    let mut stats = TrafficStats::new();
    stats.add_traffic_at("netflix", 100, 1, 10);
    assert_eq!(stats.get_stats_at(20).len(), 1);
    stats.add_traffic_at("netflix", 1, 1, 20 + HOUR);
    let found = stats.get_service_stats("netflix").unwrap();
    assert_eq!(found.bytes, 101);
    assert_eq!(found.packets, 2);
    assert_eq!(found.first_seen, 10);
    assert_eq!(found.last_seen, 20 + HOUR);
}

#[test]
fn last_seen_follows_the_latest_observation() {
    let mut stats = TrafficStats::new();
    stats.add_traffic_at("netflix", 1, 1, 100);
    stats.add_traffic_at("netflix", 1, 1, 300);
    stats.add_traffic_at("netflix", 1, 1, 200);
    let found = stats.get_service_stats("netflix").unwrap();
    assert_eq!(found.first_seen, 100);
    assert_eq!(found.last_seen, 200);
}

#[test]
fn counters_clamp_at_the_maximum() {
    let mut stats = TrafficStats::new();
    stats.add_traffic_at("bulk", u64::MAX, 1, 1);
    stats.add_traffic_at("bulk", 1, u64::MAX, 2);
    assert_eq!(stats.get_stats_at(3).get("bulk"), Some(&(u64::MAX, u64::MAX)));
    stats.add_traffic_at("bulk", 5, 5, 4);
    let detailed = stats.get_detailed_stats_at(5);
    assert_eq!(
        detailed.get("bulk"),
        Some(&TrafficData { bytes: u64::MAX, packets: u64::MAX, first_seen: 1, last_seen: 4 })
    );
}

#[test]
fn zero_traffic_still_creates_a_bucket() {
    let mut stats = TrafficStats::new();
    stats.add_traffic_at("idle", 0, 0, 7);
    assert_eq!(stats.get_stats_at(8).get("idle"), Some(&(0, 0)));
}

#[test]
fn default_aggregator_is_a_new_one() {
    let mut stats = TrafficStats::default();
    assert!(stats.get_stats_at(0).is_empty());
    stats.add_traffic_at("netflix", 1, 1, 1);
    assert_eq!(stats.get_stats_at(HOUR).get("netflix"), Some(&(1, 1)));
    assert!(stats.get_stats_at(2 * HOUR).is_empty());
}
