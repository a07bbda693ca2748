use trafficmon::config::Config;
use trafficmon::label_map::LabelMap;
use trafficmon::packet::TrafficClassifier;
use trafficmon::stats::TrafficStats;

fn packet_to(dport: u16, len: usize) -> Vec<u8> {
    let mut data = vec![0u8; len];
    data[34] = (dport >> 8) as u8;
    data[35] = (dport & 0xff) as u8;
    data
}

fn classifier() -> TrafficClassifier {
    TrafficClassifier::new(Config::default(), TrafficStats::new())
}

#[test]
fn raw_packets_are_labelled_by_destination_port() {
    let c = classifier();
    assert_eq!(c.classify_packet(&packet_to(1935, 60)), "rtmp");
    assert_eq!(c.classify_packet(&packet_to(8500, 60)), "streaming");
    assert_eq!(c.classify_packet(&packet_to(9001, 60)), "other");
    assert_eq!(c.classify_packet(&vec![0u8; 30]), "unknown");
}

#[test]
fn every_port_rule_has_its_label() {
    let c = classifier();
    assert_eq!(c.classify_packet(&packet_to(80, 36)), "http");
    assert_eq!(c.classify_packet(&packet_to(8080, 36)), "http");
    assert_eq!(c.classify_packet(&packet_to(443, 36)), "https");
    assert_eq!(c.classify_packet(&packet_to(53, 36)), "dns");
    assert_eq!(c.classify_packet(&packet_to(3478, 36)), "webrtc");
    assert_eq!(c.classify_packet(&packet_to(5349, 36)), "webrtc");
    assert_eq!(c.classify_packet(&packet_to(8000, 36)), "streaming");
    assert_eq!(c.classify_packet(&packet_to(9000, 36)), "streaming");
    assert_eq!(c.classify_packet(&packet_to(7999, 36)), "other");
    assert_eq!(c.classify_packet(&packet_to(0, 36)), "other");
    assert_eq!(c.classify_packet(&packet_to(65535, 36)), "other");
}

#[test]
fn port_is_read_most_significant_byte_first() {
    let c = classifier();
    let mut data = vec![0u8; 40];
    data[34] = 0x01;
    data[35] = 0xbb;
    assert_eq!(c.classify_packet(&data), "https");
    data[34] = 0xbb;
    data[35] = 0x01;
    assert_eq!(c.classify_packet(&data), "other");
}

#[test]
fn short_buffers_are_unknown() {
    let c = classifier();
    assert_eq!(c.classify_packet(&[]), "unknown");
    assert_eq!(c.classify_packet(&vec![0xffu8; 35]), "unknown");
}

#[test]
fn processed_packets_reach_the_statistics() {
    let mut c = classifier();
    c.process_packet_at(&packet_to(443, 100), 10);
    c.process_packet_at(&packet_to(443, 50), 20);
    c.process_packet_at(&vec![0u8; 33], 30);
    c.process_packet_at(&vec![0u8; 34], 40);
    c.process_packet(&packet_to(1935, 64));
    let mut stats = c.into_stats();
    assert_eq!(stats.get_service_stats("https").unwrap().bytes, 150);
    assert_eq!(stats.get_service_stats("https").unwrap().packets, 2);
    assert_eq!(stats.get_service_stats("unknown").unwrap().bytes, 34);
    assert_eq!(stats.get_service_stats("unknown").unwrap().packets, 1);
    let totals = stats.get_stats();
    assert_eq!(totals.len(), 3);
    assert_eq!(totals.get("rtmp"), Some(&(64, 1)));
}

#[test]
fn classifier_keeps_its_configuration() {
    let c = classifier();
    assert_eq!(c.configuration().interface, "br-lan");
}

#[test]
fn default_configuration_values() {
    let config = Config::default();
    assert_eq!(config.interface, "br-lan");
    assert_eq!(config.report_interval, 60);
    assert!(!config.log_unknown_traffic);
    assert_eq!(config.filter, Some("tcp or udp".to_string()));
    assert_eq!(config.services.len(), 2);
    assert_eq!(config.services[0].name, "netflix");
    assert_eq!(config.services[0].ports, vec![80, 443, 1935]);
    assert_eq!(config.services[0].ip_ranges, vec!["108.175.32.0/20", "198.38.96.0/19"]);
    assert!(!config.services[0].blocked);
    assert_eq!(config.services[1].name, "youtube");
    assert_eq!(config.services[1].ports, vec![80, 443, 1935]);
    assert_eq!(config.services[1].ip_ranges, vec!["173.194.0.0/16", "74.125.0.0/16"]);
    assert!(!config.services[1].blocked);
    assert!(config.time_rules.is_empty());
    assert!(config.user_rules.is_empty());
    assert_eq!(config.blocked_domains, vec!["netflix.com", "nflxvideo.net"]);
    assert_eq!(config.pattern_rules.len(), 1);
    assert_eq!(config.pattern_rules[0].name, "netflix_pattern");
    assert_eq!(config.pattern_rules[0].pattern, "netflix");
    assert_eq!(config.pattern_rules[0].action, "drop");
}

#[test]
fn label_map_keeps_insertion_order() {
    let mut m: LabelMap<u32> = LabelMap::new();
    assert!(m.is_empty());
    m.set("b", 1);
    m.set("a", 2);
    m.set("b", 3);
    assert_eq!(m.len(), 2);
    assert_eq!(m.key_at(0), "b");
    assert_eq!(m.key_at(1), "a");
    assert_eq!(*m.value_at(0), 3);
    assert_eq!(m.get("a"), Some(&2));
    assert_eq!(m.get("c"), None);
    assert_eq!(m.position("a"), Some(1));
    m.clear();
    assert!(m.is_empty());
    assert_eq!(m.get("a"), None);
}
