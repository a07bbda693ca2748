//! The monitor's configuration and its built-in defaults.
use vstd::prelude::*;

verus! {

/// The texts held by a list of strings.
pub open spec fn texts(v: Seq<String>) -> Seq<Seq<char>> {
    Seq::new(v.len(), |i: int| v[i]@)
}

/// A named service as a mathematical value.
pub struct ServiceModel {
    pub name: Seq<char>,
    pub ports: Seq<u16>,
    pub ip_ranges: Seq<Seq<char>>,
    pub blocked: bool,
}

/// A time-of-day rule as a mathematical value.
pub struct TimeRuleModel {
    pub start_time: Seq<char>,
    pub end_time: Seq<char>,
    pub services: Seq<Seq<char>>,
}

/// A per-device rule as a mathematical value.
pub struct UserRuleModel {
    pub mac_address: Seq<char>,
    pub name: Seq<char>,
    pub blocked_services: Seq<Seq<char>>,
}

/// A pattern rule as a mathematical value.
pub struct PatternModel {
    pub name: Seq<char>,
    pub pattern: Seq<char>,
    pub action: Seq<char>,
}

/// A configuration as a mathematical value.
pub struct ConfigModel {
    pub interface: Seq<char>,
    pub report_interval: u64,
    pub log_unknown_traffic: bool,
    pub filter: Option<Seq<char>>,
    pub services: Seq<ServiceModel>,
    pub time_rules: Seq<TimeRuleModel>,
    pub user_rules: Seq<UserRuleModel>,
    pub blocked_domains: Seq<Seq<char>>,
    pub pattern_rules: Seq<PatternModel>,
}

/// A named service with its ports and address ranges.
#[derive(Debug, Clone)]
pub struct ServiceConfig {
    pub name: String,
    pub ports: Vec<u16>,
    pub ip_ranges: Vec<String>,
    pub blocked: bool,
}

impl ServiceConfig {
    pub open spec fn view(&self) -> ServiceModel {
        ServiceModel {
            name: self.name@,
            ports: self.ports@,
            ip_ranges: texts(self.ip_ranges@),
            blocked: self.blocked,
        }
    }
}

/// A span of the day in which the named services are restricted.
#[derive(Debug, Clone)]
pub struct TimeRule {
    pub start_time: String,
    pub end_time: String,
    pub services: Vec<String>,
}

impl TimeRule {
    pub open spec fn view(&self) -> TimeRuleModel {
        TimeRuleModel {
            start_time: self.start_time@,
            end_time: self.end_time@,
            services: texts(self.services@),
        }
    }
}

/// The services that one device, known by its hardware address, may not use.
#[derive(Debug, Clone)]
pub struct UserRule {
    pub mac_address: String,
    pub name: String,
    pub blocked_services: Vec<String>,
}

impl UserRule {
    pub open spec fn view(&self) -> UserRuleModel {
        UserRuleModel {
            mac_address: self.mac_address@,
            name: self.name@,
            blocked_services: texts(self.blocked_services@),
        }
    }
}

/// A payload pattern and what to do on a match.
#[derive(Debug, Clone)]
pub struct PatternRule {
    pub name: String,
    pub pattern: String,
    pub action: String,
}

impl PatternRule {
    pub open spec fn view(&self) -> PatternModel {
        PatternModel { name: self.name@, pattern: self.pattern@, action: self.action@ }
    }
}

/// The monitor's configuration.
#[derive(Debug, Clone)]
pub struct Config {
    pub interface: String,
    pub report_interval: u64,
    pub log_unknown_traffic: bool,
    pub filter: Option<String>,
    pub services: Vec<ServiceConfig>,
    pub time_rules: Vec<TimeRule>,
    pub user_rules: Vec<UserRule>,
    pub blocked_domains: Vec<String>,
    pub pattern_rules: Vec<PatternRule>,
}

impl Config {
    pub open spec fn view(&self) -> ConfigModel {
        ConfigModel {
            interface: self.interface@,
            report_interval: self.report_interval,
            log_unknown_traffic: self.log_unknown_traffic,
            filter: match self.filter {
                Some(f) => Some(f@),
                None => None,
            },
            services: Seq::new(self.services@.len(), |i: int| self.services@[i]@),
            time_rules: Seq::new(self.time_rules@.len(), |i: int| self.time_rules@[i]@),
            user_rules: Seq::new(self.user_rules@.len(), |i: int| self.user_rules@[i]@),
            blocked_domains: texts(self.blocked_domains@),
            pattern_rules: Seq::new(self.pattern_rules@.len(), |i: int| self.pattern_rules@[i]@),
        }
    }
}

/// The ports that the built-in streaming services use.
pub open spec fn streaming_ports() -> Seq<u16> {
    seq![80u16, 443u16, 1935u16]
}

/// The built-in configuration: the bridge interface, a report every minute,
/// a capture filter for TCP and UDP, two streaming services, one blocked
/// domain pair and one pattern rule.
pub open spec fn default_config() -> ConfigModel {
    ConfigModel {
        interface: "br-lan"@,
        report_interval: 60,
        log_unknown_traffic: false,
        filter: Some("tcp or udp"@),
        services: seq![
            ServiceModel {
                name: "netflix"@,
                ports: streaming_ports(),
                ip_ranges: seq!["108.175.32.0/20"@, "198.38.96.0/19"@],
                blocked: false,
            },
            ServiceModel {
                name: "youtube"@,
                ports: streaming_ports(),
                ip_ranges: seq!["173.194.0.0/16"@, "74.125.0.0/16"@],
                blocked: false,
            },
        ],
        time_rules: Seq::empty(),
        user_rules: Seq::empty(),
        blocked_domains: seq!["netflix.com"@, "nflxvideo.net"@],
        pattern_rules: seq![PatternModel { name: "netflix_pattern"@, pattern: "netflix"@, action: "drop"@ }],
    }
}

fn pair_of_texts(first: &str, second: &str) -> (v: Vec<String>)
    ensures
        texts(v@) == seq![first@, second@],
{
    let mut v: Vec<String> = Vec::new();
    v.push(first.to_owned());
    v.push(second.to_owned());
    assert(texts(v@) =~= seq![first@, second@]);
    v
}

fn streaming_service(name: &str, first_range: &str, second_range: &str) -> (service: ServiceConfig)
    ensures
        service@ == (ServiceModel {
            name: name@,
            ports: streaming_ports(),
            ip_ranges: seq![first_range@, second_range@],
            blocked: false,
        }),
{
    let mut ports: Vec<u16> = Vec::new();
    ports.push(80);
    ports.push(443);
    ports.push(1935);
    assert(ports@ =~= streaming_ports());
    ServiceConfig {
        name: name.to_owned(),
        ports,
        ip_ranges: pair_of_texts(first_range, second_range),
        blocked: false,
    }
}

impl Default for Config {
    /// The built-in configuration, used where no configuration file is found.
    fn default() -> (config: Self)
        ensures
            config@ == default_config(),
    {
        let mut services: Vec<ServiceConfig> = Vec::new();
        services.push(streaming_service("netflix", "108.175.32.0/20", "198.38.96.0/19"));
        services.push(streaming_service("youtube", "173.194.0.0/16", "74.125.0.0/16"));
        let mut pattern_rules: Vec<PatternRule> = Vec::new();
        pattern_rules.push(
            PatternRule {
                name: "netflix_pattern".to_owned(),
                pattern: "netflix".to_owned(),
                action: "drop".to_owned(),
            },
        );
        let config = Config {
            interface: "br-lan".to_owned(),
            report_interval: 60,
            log_unknown_traffic: false,
            filter: Some("tcp or udp".to_owned()),
            services,
            time_rules: Vec::new(),
            user_rules: Vec::new(),
            blocked_domains: pair_of_texts("netflix.com", "nflxvideo.net"),
            pattern_rules,
        };
        proof {
            assert(config@.services =~= default_config().services);
            assert(config@.time_rules =~= default_config().time_rules);
            assert(config@.user_rules =~= default_config().user_rules);
            assert(config@.pattern_rules =~= default_config().pattern_rules);
        }
        config
    }
}

} // verus!
