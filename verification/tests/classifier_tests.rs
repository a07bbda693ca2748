use trafficmon::category::{CategoryTotals, TrafficCategory};
use trafficmon::classifier::{category_for, NftablesClassifier};
use trafficmon::totals::DirectionTotals;

#[test]
fn http_flow_is_web() {
    let mut classifier = NftablesClassifier::new();
    let flow = classifier.classify_traffic("192.168.1.100", "93.184.216.34", Some(54321), Some(80), "tcp", 1500);
    assert_eq!(flow.application, "HTTP");
    assert_eq!(flow.category, TrafficCategory::Web);
    assert_eq!(flow.bytes, 1500);
    assert_eq!(flow.packets, 1);
    assert_eq!(flow.protocol, "tcp");
    assert_eq!(flow.source_ip, "192.168.1.100");
    assert_eq!(flow.destination_ip, "93.184.216.34");
    assert_eq!(flow.source_port, Some(54321));
    assert_eq!(flow.destination_port, Some(80));
}

#[test]
fn repeated_flow_keeps_its_first_record() {
    let mut classifier = NftablesClassifier::new();
    let first = classifier.classify_traffic("10.0.0.1", "10.0.0.2", Some(4000), Some(3306), "tcp", 1200);
    let second = classifier.classify_traffic("10.0.0.1", "10.0.0.2", Some(4000), Some(3306), "tcp", 99);
    assert_eq!(first.application, "MySQL");
    assert_eq!(first.category, TrafficCategory::Database);
    assert_eq!(second.application, first.application);
    assert_eq!(second.category, first.category);
    assert_eq!(second.bytes, 1200);
    assert_eq!(classifier.get_traffic_summary().get(TrafficCategory::Database), Some(1200));
}

#[test]
fn flows_differ_by_any_part_of_the_key() {
    let mut classifier = NftablesClassifier::new();
    classifier.classify_traffic("a", "b", Some(1), Some(80), "tcp", 10);
    classifier.classify_traffic("a", "b", Some(2), Some(80), "tcp", 20);
    classifier.classify_traffic("a", "c", Some(1), Some(80), "tcp", 30);
    classifier.classify_traffic("x", "b", Some(1), Some(80), "tcp", 40);
    classifier.classify_traffic("a", "b", None, Some(80), "tcp", 50);
    classifier.classify_traffic("a", "b", Some(1), Some(80), "udp", 60);
    let summary = classifier.get_traffic_summary();
    assert_eq!(summary.get(TrafficCategory::Web), Some(210));
}

#[test]
fn exact_table_comes_before_well_known_ports() {
    let classifier = NftablesClassifier::new();
    assert_eq!(classifier.detect_application(Some(80), "tcp"), "HTTP");
    assert_eq!(classifier.detect_application(Some(443), "tcp"), "HTTPS");
    assert_eq!(classifier.detect_application(Some(8080), "tcp"), "HTTP-Alt");
    assert_eq!(classifier.detect_application(Some(3306), "tcp"), "MySQL");
    assert_eq!(classifier.detect_application(Some(5432), "tcp"), "PostgreSQL");
    assert_eq!(classifier.detect_application(Some(27017), "tcp"), "MongoDB");
    assert_eq!(classifier.detect_application(Some(53), "udp"), "DNS");
    assert_eq!(classifier.detect_application(Some(53), "tcp"), "DNS");
    assert_eq!(classifier.detect_application(Some(8080), "udp"), "Unknown");
    assert_eq!(classifier.detect_application(Some(27017), "udp"), "Unknown");
}

#[test]
fn well_known_ports_are_the_fallback() {
    let classifier = NftablesClassifier::new();
    assert_eq!(classifier.detect_application(Some(20), "tcp"), "FTP");
    assert_eq!(classifier.detect_application(Some(21), "udp"), "FTP");
    assert_eq!(classifier.detect_application(Some(22), "tcp"), "SSH");
    assert_eq!(classifier.detect_application(Some(25), "tcp"), "SMTP");
    assert_eq!(classifier.detect_application(Some(53), "sctp"), "DNS");
    assert_eq!(classifier.detect_application(Some(80), "udp"), "HTTP");
    assert_eq!(classifier.detect_application(Some(443), "udp"), "HTTPS");
    assert_eq!(classifier.detect_application(Some(3306), "udp"), "MySQL");
    assert_eq!(classifier.detect_application(Some(5432), "udp"), "PostgreSQL");
    assert_eq!(classifier.detect_application(Some(19), "tcp"), "Unknown");
    assert_eq!(classifier.detect_application(Some(23), "tcp"), "Unknown");
    assert_eq!(classifier.detect_application(None, "tcp"), "Unknown");
}

#[test]
fn category_follows_the_label_keyword() {
    let classifier = NftablesClassifier::new();
    assert_eq!(classifier.detect_category("HTTP-Alt", None, "tcp"), TrafficCategory::Web);
    assert_eq!(classifier.detect_category("MyWebApp", Some(22), "tcp"), TrafficCategory::Web);
    assert_eq!(classifier.detect_category("MYSQL", None, "tcp"), TrafficCategory::Database);
    assert_eq!(classifier.detect_category("PostgreSQL", Some(80), "tcp"), TrafficCategory::Database);
    assert_eq!(classifier.detect_category("webmysql", None, "tcp"), TrafficCategory::Web);
}

#[test]
fn category_falls_back_to_the_port() {
    let classifier = NftablesClassifier::new();
    assert_eq!(classifier.detect_category("Unknown", Some(80), "tcp"), TrafficCategory::Web);
    assert_eq!(classifier.detect_category("Unknown", Some(443), "tcp"), TrafficCategory::Web);
    assert_eq!(classifier.detect_category("Unknown", Some(8080), "tcp"), TrafficCategory::Web);
    assert_eq!(classifier.detect_category("Unknown", Some(8443), "tcp"), TrafficCategory::Web);
    assert_eq!(classifier.detect_category("MongoDB", Some(27017), "tcp"), TrafficCategory::Database);
    assert_eq!(classifier.detect_category("Unknown", Some(3306), "tcp"), TrafficCategory::Database);
    assert_eq!(classifier.detect_category("Unknown", Some(5432), "tcp"), TrafficCategory::Database);
    assert_eq!(classifier.detect_category("FTP", Some(21), "tcp"), TrafficCategory::FileTransfer);
    assert_eq!(classifier.detect_category("SSH", Some(22), "tcp"), TrafficCategory::FileTransfer);
    assert_eq!(classifier.detect_category("FTP", Some(20), "tcp"), TrafficCategory::Unknown);
    assert_eq!(classifier.detect_category("DNS", Some(53), "udp"), TrafficCategory::Unknown);
    assert_eq!(classifier.detect_category("Unknown", None, "tcp"), TrafficCategory::Unknown);
}

#[test]
fn lowered_label_is_matched_as_given() {
    assert_eq!(category_for("xxwebxx", None), TrafficCategory::Web);
    assert_eq!(category_for("http", Some(3306)), TrafficCategory::Web);
    assert_eq!(category_for("postgres", None), TrafficCategory::Database);
    assert_eq!(category_for("MYSQL", None), TrafficCategory::Unknown);
    assert_eq!(category_for("htt", Some(22)), TrafficCategory::FileTransfer);
    assert_eq!(category_for("", Some(8443)), TrafficCategory::Web);
}

#[test]
fn sample_flows_get_their_labels() {
    let mut classifier = NftablesClassifier::new();
    let https = classifier.classify_traffic("192.168.1.100", "93.184.216.34", Some(54322), Some(443), "tcp", 2500);
    let mysql = classifier.classify_traffic("192.168.1.100", "192.168.1.200", Some(54323), Some(3306), "tcp", 1200);
    let dns = classifier.classify_traffic("192.168.1.100", "8.8.8.8", Some(54324), Some(53), "udp", 512);
    let none = classifier.classify_traffic("192.168.1.100", "8.8.8.8", None, None, "icmp", 64);
    assert_eq!(https.application, "HTTPS");
    assert_eq!(https.category, TrafficCategory::Web);
    assert_eq!(mysql.application, "MySQL");
    assert_eq!(mysql.category, TrafficCategory::Database);
    assert_eq!(dns.application, "DNS");
    assert_eq!(dns.category, TrafficCategory::Unknown);
    assert_eq!(none.application, "Unknown");
    assert_eq!(none.category, TrafficCategory::Unknown);
}

#[test]
fn summary_adds_bytes_per_category() {
    let mut classifier = NftablesClassifier::new();
    assert!(classifier.get_traffic_summary().is_empty());
    classifier.classify_traffic("a", "b", Some(1), Some(80), "tcp", 1500);
    classifier.classify_traffic("a", "b", Some(2), Some(443), "tcp", 2500);
    classifier.classify_traffic("a", "c", Some(3), Some(3306), "tcp", 1200);
    classifier.classify_traffic("a", "d", Some(4), Some(53), "udp", 512);
    classifier.classify_traffic("a", "b", Some(1), Some(80), "tcp", 7777);
    let summary = classifier.get_traffic_summary();
    assert_eq!(summary.get(TrafficCategory::Web), Some(4000));
    assert_eq!(summary.get(TrafficCategory::Database), Some(1200));
    assert_eq!(summary.get(TrafficCategory::Unknown), Some(512));
    assert_eq!(summary.get(TrafficCategory::Gaming), None);
    assert!(!summary.is_empty());
}

#[test]
fn summary_clamps_at_the_maximum() {
    let mut classifier = NftablesClassifier::new();
    classifier.classify_traffic("a", "b", Some(1), Some(80), "tcp", u64::MAX);
    classifier.classify_traffic("a", "b", Some(2), Some(80), "tcp", 2);
    assert_eq!(classifier.get_traffic_summary().get(TrafficCategory::Web), Some(u64::MAX));
}

#[test]
fn clearing_the_cache_forgets_every_flow() {
    let mut classifier = NftablesClassifier::new();
    classifier.classify_traffic("a", "b", Some(1), Some(80), "tcp", 1500);
    classifier.clear_cache();
    assert!(classifier.get_traffic_summary().is_empty());
    let again = classifier.classify_traffic("a", "b", Some(1), Some(80), "tcp", 10);
    assert_eq!(again.bytes, 10);
}

#[test]
fn malicious_addresses_are_listed_once() {
    let mut classifier = NftablesClassifier::new();
    assert!(!classifier.is_malicious("203.0.113.9"));
    classifier.add_malicious_ip("203.0.113.9");
    classifier.add_malicious_ip("203.0.113.9");
    classifier.add_malicious_ip("198.51.100.7");
    assert!(classifier.is_malicious("203.0.113.9"));
    assert!(classifier.is_malicious("198.51.100.7"));
    assert!(!classifier.is_malicious("203.0.113.10"));
}

#[test]
fn category_totals_start_at_the_first_amount() {
    let mut totals = CategoryTotals::new();
    assert!(totals.is_empty());
    totals.add(TrafficCategory::Voip, 0);
    assert_eq!(totals.get(TrafficCategory::Voip), Some(0));
    totals.add(TrafficCategory::Voip, 5);
    totals.add(TrafficCategory::Malicious, 9);
    assert_eq!(totals.get(TrafficCategory::Voip), Some(5));
    assert_eq!(totals.get(TrafficCategory::Malicious), Some(9));
    assert_eq!(totals.get(TrafficCategory::Streaming), None);
    assert!(!totals.is_empty());
}

#[test]
fn direction_totals_split_by_destination_port() {
    let mut classifier = NftablesClassifier::new();
    let mut totals = DirectionTotals::new();
    let http = classifier.classify_traffic("a", "b", Some(1), Some(80), "tcp", 1500);
    let https = classifier.classify_traffic("a", "b", Some(2), Some(443), "tcp", 2500);
    let mysql = classifier.classify_traffic("a", "c", Some(3), Some(3306), "tcp", 1200);
    let none = classifier.classify_traffic("a", "c", None, None, "icmp", 64);
    totals.update(&http);
    totals.update(&https);
    totals.update(&mysql);
    totals.update(&none);
    assert_eq!(totals.bytes_received, 4000);
    assert_eq!(totals.packets_received, 2);
    assert_eq!(totals.bytes_sent, 1264);
    assert_eq!(totals.packets_sent, 2);
    assert_eq!(totals.classified_traffic.get(TrafficCategory::Web), Some(4000));
    assert_eq!(totals.classified_traffic.get(TrafficCategory::Database), Some(1200));
    assert_eq!(totals.classified_traffic.get(TrafficCategory::Unknown), Some(64));
}

#[test]
fn default_classifier_is_a_new_one() {
    let mut classifier = NftablesClassifier::default();
    assert!(classifier.get_traffic_summary().is_empty());
    assert!(!classifier.is_malicious("203.0.113.9"));
    let flow = classifier.classify_traffic("a", "b", None, Some(22), "tcp", 1);
    assert_eq!(flow.application, "SSH");
    assert_eq!(flow.category, TrafficCategory::FileTransfer);
}

#[test]
fn remembered_flow_survives_other_flows() {
    let mut classifier = NftablesClassifier::new();
    let first = classifier.classify_traffic("a", "b", Some(1), Some(443), "tcp", 100);
    classifier.classify_traffic("c", "d", Some(2), Some(22), "tcp", 200);
    classifier.classify_traffic("e", "f", None, None, "udp", 300);
    let again = classifier.classify_traffic("a", "b", Some(1), Some(443), "tcp", 1);
    assert_eq!(again.bytes, 100);
    assert_eq!(again.packets, 1);
    assert_eq!(again.application, first.application);
    assert_eq!(again.category, first.category);
}
