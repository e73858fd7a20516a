//! The settings the engine reads, and the rules a configuration must meet
//! before it is used.

use crate::text::push_unsigned;
use vstd::prelude::*;

verus! {

/// What to watch and how often.
#[derive(Clone, Debug)]
pub struct MonitoringConfig {
    /// Seconds between two scans while listeners are changing.
    pub poll_interval_secs: u64,
    /// Inclusive `(low, high)` port ranges to report.
    pub port_ranges: Vec<(u16, u16)>,
    pub show_project_names: bool,
}

/// Which integrations are switched on.
#[derive(Clone, Copy, Debug)]
pub struct IntegrationsConfig {
    pub brew_enabled: bool,
    pub docker_enabled: bool,
    pub windows_services_enabled: bool,
}

#[derive(Clone, Copy, Debug)]
pub struct NotificationsConfig {
    pub enabled: bool,
}

#[derive(Clone, Copy, Debug)]
pub struct SystemConfig {
    pub launch_at_login: bool,
}

#[derive(Clone, Debug)]
pub struct Config {
    pub monitoring: MonitoringConfig,
    pub integrations: IntegrationsConfig,
    pub notifications: NotificationsConfig,
    pub system: SystemConfig,
}

/// The port ranges watched when nothing else is configured.
pub open spec fn default_port_ranges() -> Seq<(u16, u16)> {
    seq![
        (3000u16, 3010u16),
        (3306u16, 3306u16),
        (4000u16, 4010u16),
        (5001u16, 5010u16),
        (5173u16, 5173u16),
        (5432u16, 5432u16),
        (6379u16, 6380u16),
        (8000u16, 8100u16),
        (8080u16, 8090u16),
        (9000u16, 9010u16),
        (27017u16, 27017u16),
    ]
}

impl Default for MonitoringConfig {
    fn default() -> (config: MonitoringConfig)
        ensures
            config.poll_interval_secs == 2,
            config.port_ranges@ == default_port_ranges(),
            config.show_project_names,
    {
        let mut port_ranges: Vec<(u16, u16)> = Vec::new();
        port_ranges.push((3000, 3010));
        port_ranges.push((3306, 3306));
        port_ranges.push((4000, 4010));
        port_ranges.push((5001, 5010));
        port_ranges.push((5173, 5173));
        port_ranges.push((5432, 5432));
        port_ranges.push((6379, 6380));
        port_ranges.push((8000, 8100));
        port_ranges.push((8080, 8090));
        port_ranges.push((9000, 9010));
        port_ranges.push((27017, 27017));
        assert(port_ranges@ =~= default_port_ranges());
        MonitoringConfig { poll_interval_secs: 2, port_ranges, show_project_names: true }
    }
}

impl Default for IntegrationsConfig {
    fn default() -> (config: IntegrationsConfig)
        ensures
            config.brew_enabled,
            config.docker_enabled,
            config.windows_services_enabled,
    {
        IntegrationsConfig {
            brew_enabled: true,
            docker_enabled: true,
            windows_services_enabled: true,
        }
    }
}

impl Default for NotificationsConfig {
    fn default() -> (config: NotificationsConfig)
        ensures
            config.enabled,
    {
        NotificationsConfig { enabled: true }
    }
}

impl Default for SystemConfig {
    fn default() -> (config: SystemConfig)
        ensures
            !config.launch_at_login,
    {
        SystemConfig { launch_at_login: false }
    }
}

impl Default for Config {
    fn default() -> (config: Config)
        ensures
            config.monitoring.poll_interval_secs == 2,
            config.monitoring.port_ranges@ == default_port_ranges(),
            config.monitoring.show_project_names,
            config.integrations.brew_enabled,
            config.integrations.docker_enabled,
            config.integrations.windows_services_enabled,
            config.notifications.enabled,
            !config.system.launch_at_login,
            valid_config(config),
    {
        let config = Config {
            monitoring: MonitoringConfig::default(),
            integrations: IntegrationsConfig::default(),
            notifications: NotificationsConfig::default(),
            system: SystemConfig::default(),
        };
        proof {
            lemma_first_bad_range(default_port_ranges());
        }
        config
    }
}

/// Why a configuration was turned down.
#[derive(Clone, Copy, Debug, PartialEq, Eq, Structural)]
pub enum ConfigError {
    /// The poll interval is not between 1 and 300 seconds.
    PollInterval(u64),
    /// A port range begins above its end.
    PortRange(u16, u16),
}

/// The largest poll interval accepted, in seconds.
pub const MAX_POLL_INTERVAL_SECS: u64 = 300;

/// Whether the poll interval is within 1 to 300 seconds.
pub open spec fn valid_interval(secs: u64) -> bool {
    1 <= secs <= MAX_POLL_INTERVAL_SECS
}

/// The position of the first range that begins above its end, if any.
pub open spec fn first_bad_range(ranges: Seq<(u16, u16)>) -> Option<int>
    decreases ranges.len(),
{
    if ranges.len() == 0 {
        None
    } else {
        match first_bad_range(ranges.drop_last()) {
            Some(i) => Some(i),
            None => if ranges.last().0 > ranges.last().1 {
                Some(ranges.len() - 1)
            } else {
                None
            },
        }
    }
}

/// Whether a configuration may be used.
pub open spec fn valid_config(config: Config) -> bool {
    valid_interval(config.monitoring.poll_interval_secs) && first_bad_range(
        config.monitoring.port_ranges@,
    ).is_none()
}

/// What checking a configuration yields: the poll interval is checked first,
/// then the port ranges in order.
pub open spec fn validation(config: Config) -> Result<(), ConfigError> {
    if !valid_interval(config.monitoring.poll_interval_secs) {
        Err(ConfigError::PollInterval(config.monitoring.poll_interval_secs))
    } else {
        match first_bad_range(config.monitoring.port_ranges@) {
            Some(i) => Err(
                ConfigError::PortRange(
                    config.monitoring.port_ranges@[i].0,
                    config.monitoring.port_ranges@[i].1,
                ),
            ),
            None => Ok(()),
        }
    }
}

/// The first bad range is a range that begins above its end, and no range
/// before it does; without one, every range is in order.
pub proof fn lemma_first_bad_range(ranges: Seq<(u16, u16)>)
    ensures
        match first_bad_range(ranges) {
            Some(i) => 0 <= i < ranges.len() && ranges[i].0 > ranges[i].1 && forall|j: int|
                0 <= j < i ==> (#[trigger] ranges[j]).0 <= ranges[j].1,
            None => forall|j: int| 0 <= j < ranges.len() ==> (#[trigger] ranges[j]).0 <= ranges[j].1,
        },
    decreases ranges.len(),
{
    if ranges.len() > 0 {
        lemma_first_bad_range(ranges.drop_last());
        let shorter = ranges.drop_last();
        assert forall|j: int| 0 <= j < shorter.len() implies shorter[j] == ranges[j] by {}
    }
}

/// Checks a configuration: the poll interval must be between 1 and 300
/// seconds, and no port range may begin above its end.
pub fn validate_config(config: &Config) -> (result: Result<(), ConfigError>)
    ensures
        result == validation(*config),
        result.is_ok() <==> valid_config(*config),
{
    let secs = config.monitoring.poll_interval_secs;
    if secs == 0 || secs > MAX_POLL_INTERVAL_SECS {
        return Err(ConfigError::PollInterval(secs));
    }
    let ranges = &config.monitoring.port_ranges;
    let mut i: usize = 0;
    assert(ranges@.take(0) =~= Seq::<(u16, u16)>::empty());
    while i < ranges.len()
        invariant
            i <= ranges.len(),
            ranges@ == config.monitoring.port_ranges@,
            valid_interval(config.monitoring.poll_interval_secs),
            first_bad_range(ranges@.take(i as int)).is_none(),
        decreases ranges.len() - i,
    {
        let range = ranges[i];
        proof {
            assert(ranges@.take(i + 1).drop_last() =~= ranges@.take(i as int));
            assert(ranges@.take(i + 1).last() == range);
        }
        if range.0 > range.1 {
            proof {
                lemma_bad_range_stays_first(ranges@, i as int);
            }
            return Err(ConfigError::PortRange(range.0, range.1));
        }
        i = i + 1;
    }
    assert(ranges@.take(ranges.len() as int) =~= ranges@);
    Ok(())
}

proof fn lemma_bad_range_stays_first(ranges: Seq<(u16, u16)>, i: int)
    requires
        0 <= i < ranges.len(),
        first_bad_range(ranges.take(i + 1)) == Some(i),
    ensures
        first_bad_range(ranges) == Some(i),
    decreases ranges.len(),
{
    if ranges.len() > i + 1 {
        assert(ranges.drop_last().take(i + 1) =~= ranges.take(i + 1));
        lemma_bad_range_stays_first(ranges.drop_last(), i);
    } else {
        assert(ranges.take(i + 1) =~= ranges);
    }
}

impl ConfigError {
    /// The words for this error.
    pub open spec fn text(self) -> Seq<char> {
        match self {
            ConfigError::PollInterval(secs) => "poll_interval_secs must be between 1 and 300, got "@
                + crate::text::decimal_digits(secs as nat),
            ConfigError::PortRange(start, end) => "invalid port range: start ("@
                + crate::text::decimal_digits(start as nat) + ") > end ("@
                + crate::text::decimal_digits(end as nat) + ")"@,
        }
    }

    /// The words for this error.
    pub fn message(&self) -> (message: String)
        ensures
            message@ == self.text(),
    {
        match self {
            ConfigError::PollInterval(secs) => {
                let mut message = String::from_str(
                    "poll_interval_secs must be between 1 and 300, got ",
                );
                push_unsigned(&mut message, *secs);
                message
            },
            ConfigError::PortRange(start, end) => {
                let mut message = String::from_str("invalid port range: start (");
                push_unsigned(&mut message, *start as u64);
                message.append(") > end (");
                push_unsigned(&mut message, *end as u64);
                message.append(")");
                message
            },
        }
    }
}

} // verus!
