//! The flow classification engine.
//!
//! A flow is labelled by its destination port and protocol: first through a
//! table of exact (port, protocol) pairs, then by well-known port. Its
//! category follows from the label and, failing that, from the port. Each
//! decision is remembered under the flow's key and handed out unchanged when
//! the same flow is seen again.
use vstd::prelude::*;
use crate::category::{category_entry, CategoryTotals, TrafficCategory};
use crate::label_map::LabelMap;
use crate::stats::clamp;
use crate::text::{contains_text, lowercase_of, occurs_in, to_lowercase};

verus! {

/// What identifies a flow.
pub struct FlowKey {
    pub source_ip: Seq<char>,
    pub destination_ip: Seq<char>,
    pub source_port: Option<u16>,
    pub destination_port: Option<u16>,
    pub protocol: Seq<char>,
}

/// A classified flow as a mathematical value.
pub struct ClassifiedFlow {
    pub bytes: u64,
    pub packets: u64,
    pub protocol: Seq<char>,
    pub source_ip: Seq<char>,
    pub destination_ip: Seq<char>,
    pub source_port: Option<u16>,
    pub destination_port: Option<u16>,
    pub application: Seq<char>,
    pub category: TrafficCategory,
}

impl ClassifiedFlow {
    /// The key under which the flow is remembered.
    pub open spec fn key(self) -> FlowKey {
        FlowKey {
            source_ip: self.source_ip,
            destination_ip: self.destination_ip,
            source_port: self.source_port,
            destination_port: self.destination_port,
            protocol: self.protocol,
        }
    }
}

/// A flow with its service label and category.
#[derive(Debug, Clone)]
pub struct ClassifiedTraffic {
    pub bytes: u64,
    pub packets: u64,
    pub protocol: String,
    pub source_ip: String,
    pub destination_ip: String,
    pub source_port: Option<u16>,
    pub destination_port: Option<u16>,
    pub application: String,
    pub category: TrafficCategory,
}

impl ClassifiedTraffic {
    /// The record as a mathematical value.
    pub open spec fn view(&self) -> ClassifiedFlow {
        ClassifiedFlow {
            bytes: self.bytes,
            packets: self.packets,
            protocol: self.protocol@,
            source_ip: self.source_ip@,
            destination_ip: self.destination_ip@,
            source_port: self.source_port,
            destination_port: self.destination_port,
            application: self.application@,
            category: self.category,
        }
    }

    /// A copy with the same contents.
    pub fn duplicate(&self) -> (copy: Self)
        ensures
            copy@ == self@,
    {
        ClassifiedTraffic {
            bytes: self.bytes,
            packets: self.packets,
            protocol: self.protocol.clone(),
            source_ip: self.source_ip.clone(),
            destination_ip: self.destination_ip.clone(),
            source_port: self.source_port,
            destination_port: self.destination_port,
            application: self.application.clone(),
            category: self.category,
        }
    }
}

/// The label that the exact table gives to a (port, protocol) pair.
pub open spec fn seeded_application(port: u16, protocol: Seq<char>) -> Option<Seq<char>> {
    if protocol == "tcp"@ && port == 80 {
        Some("HTTP"@)
    } else if protocol == "tcp"@ && port == 443 {
        Some("HTTPS"@)
    } else if protocol == "tcp"@ && port == 8080 {
        Some("HTTP-Alt"@)
    } else if protocol == "tcp"@ && port == 3306 {
        Some("MySQL"@)
    } else if protocol == "tcp"@ && port == 5432 {
        Some("PostgreSQL"@)
    } else if protocol == "tcp"@ && port == 27017 {
        Some("MongoDB"@)
    } else if protocol == "udp"@ && port == 53 {
        Some("DNS"@)
    } else if protocol == "tcp"@ && port == 53 {
        Some("DNS"@)
    } else {
        None
    }
}

/// The label of a well-known port, whatever the protocol.
pub open spec fn well_known_application(port: u16) -> Seq<char> {
    if 20 <= port <= 21 {
        "FTP"@
    } else if port == 22 {
        "SSH"@
    } else if port == 25 {
        "SMTP"@
    } else if port == 53 {
        "DNS"@
    } else if port == 80 {
        "HTTP"@
    } else if port == 443 {
        "HTTPS"@
    } else if port == 3306 {
        "MySQL"@
    } else if port == 5432 {
        "PostgreSQL"@
    } else {
        "Unknown"@
    }
}

/// The service label of a flow: the exact table first, then the well-known
/// ports, and "Unknown" where there is no port or no match.
pub open spec fn application_of(port: Option<u16>, protocol: Seq<char>) -> Seq<char> {
    match port {
        Some(p) => match seeded_application(p, protocol) {
            Some(label) => label,
            None => well_known_application(p),
        },
        None => "Unknown"@,
    }
}

/// The category that a port stands for by itself.
pub open spec fn category_of_port(port: Option<u16>) -> TrafficCategory {
    match port {
        Some(p) => if p == 80 || p == 443 || p == 8080 || p == 8443 {
            TrafficCategory::Web
        } else if p == 3306 || p == 5432 || p == 27017 {
            TrafficCategory::Database
        } else if p == 21 || p == 22 {
            TrafficCategory::FileTransfer
        } else {
            TrafficCategory::Unknown
        },
        None => TrafficCategory::Unknown,
    }
}

/// The category of a lowercased label: by keyword first, then by port.
pub open spec fn category_of_lowered(lowered: Seq<char>, port: Option<u16>) -> TrafficCategory {
    if occurs_in(lowered, "http"@) || occurs_in(lowered, "web"@) {
        TrafficCategory::Web
    } else if occurs_in(lowered, "mysql"@) || occurs_in(lowered, "postgres"@) {
        TrafficCategory::Database
    } else {
        category_of_port(port)
    }
}

/// The category of a label, matched without regard to case.
pub open spec fn category_of(application: Seq<char>, port: Option<u16>) -> TrafficCategory {
    category_of_lowered(lowercase_of(application), port)
}

/// The record made for a flow that is seen for the first time.
pub open spec fn fresh_flow(key: FlowKey, bytes: u64) -> ClassifiedFlow {
    ClassifiedFlow {
        bytes,
        packets: 1,
        protocol: key.protocol,
        source_ip: key.source_ip,
        destination_ip: key.destination_ip,
        source_port: key.source_port,
        destination_port: key.destination_port,
        application: application_of(key.destination_port, key.protocol),
        category: category_of(application_of(key.destination_port, key.protocol), key.destination_port),
    }
}

/// The bytes of the flows of category `c`, added up; `None` where there is
/// no such flow.
pub open spec fn category_bytes(flows: Seq<ClassifiedFlow>, c: TrafficCategory) -> Option<nat>
    decreases flows.len(),
{
    if flows.len() == 0 {
        None
    } else {
        let before = category_bytes(flows.drop_last(), c);
        if flows.last().category == c {
            Some(
                match before {
                    Some(t) => t + flows.last().bytes as nat,
                    None => flows.last().bytes as nat,
                },
            )
        } else {
            before
        }
    }
}

/// The classifier as a mathematical value: the remembered flows in the
/// order in which they were first seen, and the addresses flagged malicious.
pub struct ClassifierState {
    pub cache: Seq<ClassifiedFlow>,
    pub malicious_ips: Seq<Seq<char>>,
}

impl ClassifierState {
    /// No two remembered flows share a key.
    pub open spec fn keys_distinct(self) -> bool {
        forall|i: int, j: int|
            0 <= i < j < self.cache.len() ==> (#[trigger] self.cache[i]).key() != (#[trigger] self.cache[j]).key()
    }

    /// Whether a flow is remembered under `key`.
    pub open spec fn remembers(self, key: FlowKey) -> bool {
        exists|i: int| 0 <= i < self.cache.len() && (#[trigger] self.cache[i]).key() == key
    }

    /// The flow remembered under `key`, if any.
    pub open spec fn cached(self, key: FlowKey) -> Option<ClassifiedFlow> {
        if self.remembers(key) {
            Some(self.cache[choose|i: int| 0 <= i < self.cache.len() && (#[trigger] self.cache[i]).key() == key])
        } else {
            None
        }
    }

    /// What classifying the flow `key` with `bytes` returns: the remembered
    /// record where there is one, a fresh one otherwise.
    pub open spec fn classified(self, key: FlowKey, bytes: u64) -> ClassifiedFlow {
        match self.cached(key) {
            Some(flow) => flow,
            None => fresh_flow(key, bytes),
        }
    }

    /// The state after classifying the flow `key` with `bytes`: a flow seen
    /// for the first time is remembered, a known one changes nothing.
    pub open spec fn remember(self, key: FlowKey, bytes: u64) -> ClassifierState {
        if self.remembers(key) {
            self
        } else {
            ClassifierState { cache: self.cache.push(fresh_flow(key, bytes)), malicious_ips: self.malicious_ips }
        }
    }

    /// The state after flagging `ip`: it is listed once.
    pub open spec fn flag(self, ip: Seq<char>) -> ClassifierState {
        if self.malicious_ips.contains(ip) {
            self
        } else {
            ClassifierState { cache: self.cache, malicious_ips: self.malicious_ips.push(ip) }
        }
    }

    /// The state with no flow remembered.
    pub open spec fn forget(self) -> ClassifierState {
        ClassifierState { cache: Seq::empty(), malicious_ips: self.malicious_ips }
    }

    /// Per category, the bytes of all remembered flows, clamped at `u64::MAX`.
    pub open spec fn summary(self) -> Map<TrafficCategory, u64> {
        Map::new(
            |c: TrafficCategory| category_bytes(self.cache, c) is Some,
            |c: TrafficCategory| clamp(category_bytes(self.cache, c).unwrap()),
        )
    }
}

/// The key made of the parts of a flow tuple.
pub open spec fn flow_key(
    source_ip: Seq<char>,
    destination_ip: Seq<char>,
    source_port: Option<u16>,
    destination_port: Option<u16>,
    protocol: Seq<char>,
) -> FlowKey {
    FlowKey { source_ip, destination_ip, source_port, destination_port, protocol }
}

/// The pair at position `i` of the exact table, with its label.
pub open spec fn seeded_rule(i: int) -> (u16, Seq<char>, Seq<char>) {
    if i == 0 {
        (80u16, "tcp"@, "HTTP"@)
    } else if i == 1 {
        (443u16, "tcp"@, "HTTPS"@)
    } else if i == 2 {
        (8080u16, "tcp"@, "HTTP-Alt"@)
    } else if i == 3 {
        (3306u16, "tcp"@, "MySQL"@)
    } else if i == 4 {
        (5432u16, "tcp"@, "PostgreSQL"@)
    } else if i == 5 {
        (27017u16, "tcp"@, "MongoDB"@)
    } else if i == 6 {
        (53u16, "udp"@, "DNS"@)
    } else {
        (53u16, "tcp"@, "DNS"@)
    }
}

/// The keyword rules that the classifier is seeded with.
pub open spec fn seeded_categories() -> Map<Seq<char>, TrafficCategory> {
    Map::<Seq<char>, TrafficCategory>::empty().insert("http"@, TrafficCategory::Web).insert(
        "https"@,
        TrafficCategory::Web,
    ).insert("mysql"@, TrafficCategory::Database).insert("postgresql"@, TrafficCategory::Database)
}

/// One row of the exact table.
struct AppRule {
    port: u16,
    protocol: String,
    application: String,
}

impl AppRule {
    spec fn view(&self) -> (u16, Seq<char>, Seq<char>) {
        (self.port, self.protocol@, self.application@)
    }
}

fn same_port(a: Option<u16>, b: Option<u16>) -> (same: bool)
    ensures
        same == (a == b),
{
    match (a, b) {
        (Some(x), Some(y)) => x == y,
        (None, None) => true,
        _ => false,
    }
}

/// The category of a label that has been lowercased already: "http" or
/// "web" in it make it Web, "mysql" or "postgres" Database; otherwise the
/// port decides.
pub fn category_for(lowered: &str, port: Option<u16>) -> (category: TrafficCategory)
    ensures
        category == category_of_lowered(lowered@, port),
{
    if contains_text(lowered, "http") || contains_text(lowered, "web") {
        return TrafficCategory::Web;
    }
    if contains_text(lowered, "mysql") || contains_text(lowered, "postgres") {
        return TrafficCategory::Database;
    }
    match port {
        Some(p) => {
            if p == 80 || p == 443 || p == 8080 || p == 8443 {
                TrafficCategory::Web
            } else if p == 3306 || p == 5432 || p == 27017 {
                TrafficCategory::Database
            } else if p == 21 || p == 22 {
                TrafficCategory::FileTransfer
            } else {
                TrafficCategory::Unknown
            }
        },
        None => TrafficCategory::Unknown,
    }
}

fn well_known(port: u16) -> (label: String)
    ensures
        label@ == well_known_application(port),
{
    if 20 <= port && port <= 21 {
        "FTP".to_owned()
    } else if port == 22 {
        "SSH".to_owned()
    } else if port == 25 {
        "SMTP".to_owned()
    } else if port == 53 {
        "DNS".to_owned()
    } else if port == 80 {
        "HTTP".to_owned()
    } else if port == 443 {
        "HTTPS".to_owned()
    } else if port == 3306 {
        "MySQL".to_owned()
    } else if port == 5432 {
        "PostgreSQL".to_owned()
    } else {
        "Unknown".to_owned()
    }
}

/// The classification engine.
pub struct NftablesClassifier {
    rules: LabelMap<TrafficCategory>,
    application_map: Vec<AppRule>,
    malicious_ips: Vec<String>,
    cache: Vec<ClassifiedTraffic>,
}

impl NftablesClassifier {
    /// The classifier as a mathematical value.
    pub closed spec fn view(&self) -> ClassifierState {
        ClassifierState {
            cache: Seq::new(self.cache@.len(), |i: int| self.cache@[i]@),
            malicious_ips: Seq::new(self.malicious_ips@.len(), |i: int| self.malicious_ips@[i]@),
        }
    }

    /// The keyword rules as a map.
    pub closed spec fn rules(&self) -> Map<Seq<char>, TrafficCategory> {
        self.rules@
    }

    spec fn table_seeded(&self) -> bool {
        &&& self.application_map@.len() == 8
        &&& forall|i: int| 0 <= i < 8 ==> (#[trigger] self.application_map@[i])@ == seeded_rule(i)
    }

    /// The tables hold what they were seeded with and no two remembered
    /// flows share a key.
    pub closed spec fn wf(&self) -> bool {
        &&& self.rules.wf()
        &&& self.rules@ == seeded_categories()
        &&& self.table_seeded()
        &&& self@.keys_distinct()
    }

    /// A well-formed classifier remembers each flow once and holds the
    /// seeded keyword rules.
    pub proof fn lemma_wf(&self)
        requires
            self.wf(),
        ensures
            self@.keys_distinct(),
            self.rules() == seeded_categories(),
    {
    }

    /// A classifier with its tables seeded, nothing remembered and nothing
    /// flagged.
    pub fn new() -> (c: Self)
        ensures
            c.wf(),
            c@.cache == Seq::<ClassifiedFlow>::empty(),
            c@.malicious_ips == Seq::<Seq<char>>::empty(),
    {
        let mut classifier = NftablesClassifier {
            rules: LabelMap::new(),
            application_map: Vec::new(),
            malicious_ips: Vec::new(),
            cache: Vec::new(),
        };
        classifier.initialize_application_map();
        classifier.initialize_rules();
        assert(classifier@.cache =~= Seq::<ClassifiedFlow>::empty());
        assert(classifier@.malicious_ips =~= Seq::<Seq<char>>::empty());
        classifier
    }

    /// Appends one row to the exact table.
    fn add_rule(&mut self, port: u16, protocol: &str, application: &str)
        ensures
            final(self).application_map@ == old(self).application_map@.push(
                final(self).application_map@.last(),
            ),
            final(self).application_map@.last()@ == (port, protocol@, application@),
            final(self).rules == old(self).rules,
            final(self).malicious_ips == old(self).malicious_ips,
            final(self).cache == old(self).cache,
    {
        let rule = AppRule { port, protocol: protocol.to_owned(), application: application.to_owned() };
        self.application_map.push(rule);
    }

    /// Fills the exact table of (port, protocol) pairs.
    fn initialize_application_map(&mut self)
        requires
            old(self).application_map@.len() == 0,
        ensures
            final(self).table_seeded(),
            final(self).rules == old(self).rules,
            final(self).malicious_ips == old(self).malicious_ips,
            final(self).cache == old(self).cache,
    {
        self.add_rule(80, "tcp", "HTTP");
        self.add_rule(443, "tcp", "HTTPS");
        self.add_rule(8080, "tcp", "HTTP-Alt");
        self.add_rule(3306, "tcp", "MySQL");
        self.add_rule(5432, "tcp", "PostgreSQL");
        self.add_rule(27017, "tcp", "MongoDB");
        self.add_rule(53, "udp", "DNS");
        self.add_rule(53, "tcp", "DNS");
    }

    /// Fills the keyword rules.
    fn initialize_rules(&mut self)
        requires
            old(self).rules.wf(),
            old(self).rules@ == Map::<Seq<char>, TrafficCategory>::empty(),
        ensures
            final(self).rules.wf(),
            final(self).rules@ == seeded_categories(),
            final(self).application_map == old(self).application_map,
            final(self).malicious_ips == old(self).malicious_ips,
            final(self).cache == old(self).cache,
    {
        self.rules.set("http", TrafficCategory::Web);
        self.rules.set("https", TrafficCategory::Web);
        self.rules.set("mysql", TrafficCategory::Database);
        self.rules.set("postgresql", TrafficCategory::Database);
    }

    /// The service label for a destination port and protocol.
    pub fn detect_application(&self, port: Option<u16>, protocol: &str) -> (label: String)
        requires
            self.wf(),
        ensures
            label@ == application_of(port, protocol@),
    {
        match port {
            Some(port_num) => {
                let wanted = protocol.to_owned();
                let n = self.application_map.len();
                let mut i: usize = 0;
                while i < n
                    invariant
                        self.table_seeded(),
                        n == 8,
                        i <= n,
                        port == Some(port_num),
                        wanted@ == protocol@,
                        forall|j: int|
                            0 <= j < i ==> !(seeded_rule(j).0 == port_num && seeded_rule(j).1 == protocol@),
                    decreases n - i,
                {
                    let rule = &self.application_map[i];
                    assert(rule@ == seeded_rule(i as int));
                    if rule.port == port_num && rule.protocol == wanted {
                        assert(seeded_application(port_num, protocol@) == Some(seeded_rule(i as int).2));
                        return rule.application.clone();
                    }
                    i += 1;
                }
                proof {
                    // No row of the table matches: name each row once.
                    assert(!(seeded_rule(0).0 == port_num && seeded_rule(0).1 == protocol@));
                    assert(!(seeded_rule(1).0 == port_num && seeded_rule(1).1 == protocol@));
                    assert(!(seeded_rule(2).0 == port_num && seeded_rule(2).1 == protocol@));
                    assert(!(seeded_rule(3).0 == port_num && seeded_rule(3).1 == protocol@));
                    assert(!(seeded_rule(4).0 == port_num && seeded_rule(4).1 == protocol@));
                    assert(!(seeded_rule(5).0 == port_num && seeded_rule(5).1 == protocol@));
                    assert(!(seeded_rule(6).0 == port_num && seeded_rule(6).1 == protocol@));
                    assert(!(seeded_rule(7).0 == port_num && seeded_rule(7).1 == protocol@));
                }
                well_known(port_num)
            },
            None => "Unknown".to_owned(),
        }
    }

    /// The category for a service label and destination port. The protocol
    /// plays no part.
    pub fn detect_category(&self, application: &str, port: Option<u16>, _protocol: &str) -> (category:
        TrafficCategory)
        ensures
            category == category_of(application@, port),
    {
        let app_lower = to_lowercase(application);
        category_for(app_lower.as_str(), port)
    }

    /// The position of the flow remembered under the given key.
    fn find_cached(
        &self,
        source_ip: &String,
        destination_ip: &String,
        source_port: Option<u16>,
        destination_port: Option<u16>,
        protocol: &String,
    ) -> (found: Option<usize>)
        ensures
            match found {
                Some(i) => i < self.cache@.len() && self.cache@[i as int]@.key() == flow_key(
                    source_ip@,
                    destination_ip@,
                    source_port,
                    destination_port,
                    protocol@,
                ),
                None => !self@.remembers(
                    flow_key(source_ip@, destination_ip@, source_port, destination_port, protocol@),
                ),
            },
    {
        let ghost key = flow_key(source_ip@, destination_ip@, source_port, destination_port, protocol@);
        let n = self.cache.len();
        let mut i: usize = 0;
        while i < n
            invariant
                n == self.cache@.len(),
                i <= n,
                key == flow_key(source_ip@, destination_ip@, source_port, destination_port, protocol@),
                forall|j: int| 0 <= j < i ==> (#[trigger] self@.cache[j]).key() != key,
            decreases n - i,
        {
            let entry = &self.cache[i];
            assert(self@.cache[i as int] == entry@);
            if entry.source_ip == *source_ip && entry.destination_ip == *destination_ip && same_port(
                entry.source_port,
                source_port,
            ) && same_port(entry.destination_port, destination_port) && entry.protocol == *protocol {
                return Some(i);
            }
            i += 1;
        }
        None
    }

    /// Classifies a flow. A flow that was classified before gets the record
    /// made then, unchanged, whatever `bytes` says now. A new flow gets a
    /// record with `bytes`, one packet, its label and its category, and that
    /// record is remembered.
    pub fn classify_traffic(
        &mut self,
        source_ip: &str,
        destination_ip: &str,
        source_port: Option<u16>,
        destination_port: Option<u16>,
        protocol: &str,
        bytes: u64,
    ) -> (classified: ClassifiedTraffic)
        requires
            old(self).wf(),
        ensures
            final(self).wf(),
            classified@ == old(self)@.classified(
                flow_key(source_ip@, destination_ip@, source_port, destination_port, protocol@),
                bytes,
            ),
            final(self)@ == old(self)@.remember(
                flow_key(source_ip@, destination_ip@, source_port, destination_port, protocol@),
                bytes,
            ),
    {
        let ghost key = flow_key(source_ip@, destination_ip@, source_port, destination_port, protocol@);
        let source = source_ip.to_owned();
        let destination = destination_ip.to_owned();
        let proto = protocol.to_owned();
        match self.find_cached(&source, &destination, source_port, destination_port, &proto) {
            Some(i) => {
                proof {
                    assert(self@.cache[i as int].key() == key);
                    let k = choose|k: int| 0 <= k < self@.cache.len() && (#[trigger] self@.cache[k]).key() == key;
                    assert(k == i);
                }
                self.cache[i].duplicate()
            },
            None => {
                let application = self.detect_application(destination_port, protocol);
                let category = self.detect_category(application.as_str(), destination_port, protocol);
                let classified = ClassifiedTraffic {
                    bytes,
                    packets: 1,
                    protocol: proto,
                    source_ip: source,
                    destination_ip: destination,
                    source_port,
                    destination_port,
                    application,
                    category,
                };
                let copy = classified.duplicate();
                self.cache.push(classified);
                proof {
                    assert(self@.cache =~= old(self)@.cache.push(fresh_flow(key, bytes)));
                    assert(self@.malicious_ips =~= old(self)@.malicious_ips);
                    assert forall|a: int, b: int| 0 <= a < b < self@.cache.len() implies (
                    #[trigger] self@.cache[a]).key() != (#[trigger] self@.cache[b]).key() by {
                        if b < old(self)@.cache.len() {
                            assert(old(self)@.cache[a].key() != old(self)@.cache[b].key());
                        } else {
                            assert(old(self)@.cache[a].key() != key);
                        }
                    }
                }
                copy
            },
        }
    }

    /// Whether an address has been flagged as malicious.
    pub fn is_malicious(&self, ip: &str) -> (flagged: bool)
        ensures
            flagged == self@.malicious_ips.contains(ip@),
    {
        let wanted = ip.to_owned();
        let n = self.malicious_ips.len();
        let mut i: usize = 0;
        while i < n
            invariant
                n == self.malicious_ips@.len(),
                i <= n,
                wanted@ == ip@,
                forall|j: int| 0 <= j < i ==> self@.malicious_ips[j] != ip@,
            decreases n - i,
        {
            if self.malicious_ips[i] == wanted {
                assert(self@.malicious_ips[i as int] == ip@);
                return true;
            }
            i += 1;
        }
        false
    }

    /// Flags an address as malicious. An address that is flagged already is
    /// not listed again.
    pub fn add_malicious_ip(&mut self, ip: &str)
        requires
            old(self).wf(),
        ensures
            final(self).wf(),
            final(self)@ == old(self)@.flag(ip@),
    {
        if !self.is_malicious(ip) {
            self.malicious_ips.push(ip.to_owned());
            assert(self@.malicious_ips =~= old(self)@.malicious_ips.push(ip@));
            assert(self@.cache =~= old(self)@.cache);
        }
    }

    /// The bytes of all remembered flows, added up per category.
    pub fn get_traffic_summary(&self) -> (summary: CategoryTotals)
        requires
            self.wf(),
        ensures
            summary.wf(),
            summary@ == self@.summary(),
    {
        let ghost flows = self@.cache;
        let mut summary = CategoryTotals::new();
        let n = self.cache.len();
        let mut i: usize = 0;
        assert(flows.take(0) =~= Seq::<ClassifiedFlow>::empty());
        while i < n
            invariant
                n == self.cache@.len(),
                i <= n,
                flows == self@.cache,
                summary.wf(),
                forall|c: TrafficCategory| #[trigger]
                    category_entry(summary@, c) == match category_bytes(flows.take(i as int), c) {
                        Some(t) => Some(clamp(t)),
                        None => None,
                    },
            decreases n - i,
        {
            let traffic = &self.cache[i];
            let ghost prior = summary@;
            proof {
                assert(flows.take(i + 1).drop_last() =~= flows.take(i as int));
                assert(flows.take(i + 1).last() == traffic@);
            }
            summary.add(traffic.category, traffic.bytes);
            proof {
                assert forall|c: TrafficCategory| #[trigger]
                    category_entry(summary@, c) == match category_bytes(flows.take(i + 1), c) {
                        Some(t) => Some(clamp(t)),
                        None => None,
                    } by {
                    assert(category_entry(prior, c) == match category_bytes(flows.take(i as int), c) {
                        Some(t) => Some(clamp(t)),
                        None => None,
                    });
                }
            }
            i += 1;
        }
        proof {
            assert(flows.take(n as int) =~= flows);
            assert forall|c: TrafficCategory| summary@.contains_key(c) == self@.summary().contains_key(c) by {
                assert(category_entry(summary@, c) is Some == category_bytes(flows, c) is Some);
            }
            assert forall|c: TrafficCategory| summary@.contains_key(c) implies summary@[c]
                == self@.summary()[c] by {
                assert(category_entry(summary@, c) is Some == category_bytes(flows, c) is Some);
            }
            assert(summary@ =~= self@.summary());
        }
        summary
    }

    /// Forgets every remembered flow.
    pub fn clear_cache(&mut self)
        requires
            old(self).wf(),
        ensures
            final(self).wf(),
            final(self)@ == old(self)@.forget(),
    {
        self.cache.clear();
        assert(self@.cache =~= Seq::<ClassifiedFlow>::empty());
        assert(self@.malicious_ips =~= old(self)@.malicious_ips);
    }
}

/// Classifying the same flow twice gives the same record both times, label
/// and category included, whatever byte counts the two calls carry; the
/// second call changes nothing.
pub proof fn lemma_repeat_classification(s: ClassifierState, key: FlowKey, first: u64, second: u64)
    requires
        s.keys_distinct(),
    ensures
        s.remember(key, first).classified(key, second) == s.classified(key, first),
        s.remember(key, first).classified(key, second).application == s.classified(key, first).application,
        s.remember(key, first).classified(key, second).category == s.classified(key, first).category,
        s.remember(key, first).remember(key, second) == s.remember(key, first),
        s.remember(key, first).keys_distinct(),
{
    let t = s.remember(key, first);
    if !s.remembers(key) {
        let last = s.cache.len() as int;
        assert(t.cache[last].key() == key);
        assert(t.remembers(key));
        let k = choose|k: int| 0 <= k < t.cache.len() && (#[trigger] t.cache[k]).key() == key;
        if k < last {
            assert(s.cache[k].key() == key);
        }
        assert forall|a: int, b: int| 0 <= a < b < t.cache.len() implies (#[trigger] t.cache[a]).key() != (
        #[trigger] t.cache[b]).key() by {
            if b < last {
                assert(s.cache[a].key() != s.cache[b].key());
            } else {
                assert(s.cache[a].key() != key);
            }
        }
    }
}

/// A remembered flow keeps its record while other flows are classified.
pub proof fn lemma_cached_record_is_stable(s: ClassifierState, key: FlowKey, other: FlowKey, bytes: u64)
    requires
        s.keys_distinct(),
        s.remembers(key),
    ensures
        s.remember(other, bytes).cached(key) == s.cached(key),
{
    let t = s.remember(other, bytes);
    if !s.remembers(other) {
        let i = choose|i: int| 0 <= i < s.cache.len() && (#[trigger] s.cache[i]).key() == key;
        assert(t.cache[i].key() == key);
        let m = choose|m: int| 0 <= m < t.cache.len() && (#[trigger] t.cache[m]).key() == key;
        if m == s.cache.len() {
            assert(fresh_flow(other, bytes).key() == other);
            assert(s.cache[i].key() == other);
        } else {
            assert(s.cache[m].key() == key);
            if m < i {
                assert(s.cache[m].key() != s.cache[i].key());
            } else if i < m {
                assert(s.cache[i].key() != s.cache[m].key());
            }
        }
    }
}

impl Default for NftablesClassifier {
    /// The same as [`NftablesClassifier::new`].
    fn default() -> (c: Self)
        ensures
            c.wf(),
            c@.cache == Seq::<ClassifiedFlow>::empty(),
            c@.malicious_ips == Seq::<Seq<char>>::empty(),
    {
        Self::new()
    }
}

} // verus!
