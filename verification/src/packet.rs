//! Labelling raw packets by destination port alone.
//!
//! This path serves captures that offer no flow context: the destination
//! port is read at a fixed offset, behind a link and network header of 34
//! bytes, and mapped to a service label for the statistics.
use vstd::prelude::*;
use crate::clock::wall_clock_nanos;
use crate::config::Config;
use crate::stats::{StatsState, TrafficStats};

verus! {

/// The length of the link and network headers that a packet must at least have.
pub const HEADER_LEN: usize = 34;

/// The label that a destination port stands for.
pub open spec fn port_label(dport: u16) -> Seq<char> {
    if dport == 80 || dport == 8080 {
        "http"@
    } else if dport == 443 {
        "https"@
    } else if dport == 53 {
        "dns"@
    } else if dport == 1935 {
        "rtmp"@
    } else if dport == 3478 || dport == 5349 {
        "webrtc"@
    } else if 8000 <= dport <= 9000 {
        "streaming"@
    } else {
        "other"@
    }
}

/// The destination port of a packet: bytes 34 and 35, most significant first.
pub open spec fn destination_port(data: Seq<u8>) -> int
    recommends
        data.len() >= 36,
{
    data[34] as int * 256 + data[35] as int
}

/// The label of a raw packet: "unknown" where it is too short to hold a
/// destination port, else the label of that port.
pub open spec fn packet_label(data: Seq<u8>) -> Seq<char> {
    if data.len() < 36 {
        "unknown"@
    } else {
        port_label(destination_port(data) as u16)
    }
}

/// The statistics after one packet seen at `now`: its length in bytes and
/// one packet more under its label.
pub open spec fn packet_recorded(before: StatsState, data: Seq<u8>, now: u128) -> StatsState {
    before.observe(packet_label(data), data.len() as u64, 1, now)
}

/// Labels raw packets and feeds the statistics aggregator that it owns.
pub struct TrafficClassifier {
    config: Config,
    stats: TrafficStats,
}

impl TrafficClassifier {
    /// The configuration that the classifier was made with.
    pub closed spec fn config(&self) -> Config {
        self.config
    }

    /// The aggregator that the classifier feeds.
    pub closed spec fn stats(&self) -> TrafficStats {
        self.stats
    }

    /// A classifier over the given configuration and aggregator.
    pub fn new(config: Config, stats: TrafficStats) -> (c: Self)
        ensures
            c.config() == config,
            c.stats() == stats,
    {
        TrafficClassifier { config, stats }
    }

    /// The configuration that the classifier was made with.
    pub fn configuration(&self) -> (config: &Config)
        ensures
            *config == self.config(),
    {
        &self.config
    }

    /// The service label of a raw packet.
    pub fn classify_packet(&self, data: &[u8]) -> (label: String)
        ensures
            label@ == packet_label(data@),
    {
        if data.len() < 36 {
            return "unknown".to_owned();
        }
        let hi: u16 = data[34] as u16;
        let lo: u16 = data[35] as u16;
        let dport: u16 = hi * 256 + lo;
        if dport == 80 || dport == 8080 {
            "http".to_owned()
        } else if dport == 443 {
            "https".to_owned()
        } else if dport == 53 {
            "dns".to_owned()
        } else if dport == 1935 {
            "rtmp".to_owned()
        } else if dport == 3478 || dport == 5349 {
            "webrtc".to_owned()
        } else if dport >= 8000 && dport <= 9000 {
            "streaming".to_owned()
        } else {
            "other".to_owned()
        }
    }

    /// Records one packet seen at `now`: its length in bytes under its
    /// label. A packet shorter than the headers is passed over.
    pub fn process_packet_at(&mut self, data: &[u8], now: u128)
        requires
            old(self).stats().wf(),
        ensures
            final(self).stats().wf(),
            final(self).config() == old(self).config(),
            data@.len() < HEADER_LEN ==> final(self).stats() == old(self).stats(),
            data@.len() >= HEADER_LEN ==> final(self).stats()@ == packet_recorded(old(self).stats()@, data@, now),
    {
        if data.len() < HEADER_LEN {
            return ;
        }
        let service = self.classify_packet(data);
        let packet_size = data.len() as u64;
        self.stats.add_traffic_at(service.as_str(), packet_size, 1, now);
    }

    /// Records one packet seen at the current time.
    pub fn process_packet(&mut self, data: &[u8])
        requires
            old(self).stats().wf(),
        ensures
            final(self).stats().wf(),
            final(self).config() == old(self).config(),
            data@.len() < HEADER_LEN ==> final(self).stats() == old(self).stats(),
            data@.len() >= HEADER_LEN ==> exists|now: u128|
                final(self).stats()@ == #[trigger] packet_recorded(old(self).stats()@, data@, now),
    {
        let now = wall_clock_nanos();
        self.process_packet_at(data, now);
    }

    /// Gives the aggregator back.
    pub fn into_stats(self) -> (stats: TrafficStats)
        ensures
            stats == self.stats(),
    {
        self.stats
    }
}

} // verus!
