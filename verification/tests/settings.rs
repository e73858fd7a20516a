use portkiller::config::{
    validate_config, Config, ConfigError, IntegrationsConfig, MonitoringConfig,
    NotificationsConfig, SystemConfig,
};
use portkiller::model::{AppState, Platform, ProcessInfo, ProjectInfo};
use portkiller::notify::{
    escape_powershell, maybe_notify_changes, notify_startup, push_truncated,
};

fn record(port: u16, pid: i32, command: &str) -> ProcessInfo {
    ProcessInfo { port, pid, command: command.to_string() }
}

#[test]
fn defaults() {
    let config = Config::default();
    assert_eq!(config.monitoring.poll_interval_secs, 2);
    assert_eq!(config.monitoring.port_ranges.len(), 11);
    assert_eq!(config.monitoring.port_ranges[0], (3000, 3010));
    assert_eq!(config.monitoring.port_ranges[10], (27017, 27017));
    assert!(config.monitoring.show_project_names);
    assert!(config.integrations.brew_enabled);
    assert!(config.integrations.docker_enabled);
    assert!(config.integrations.windows_services_enabled);
    assert!(config.notifications.enabled);
    assert!(!config.system.launch_at_login);
    assert_eq!(validate_config(&config), Ok(()));
    assert!(MonitoringConfig::default().show_project_names);
    assert!(IntegrationsConfig::default().docker_enabled);
    assert!(NotificationsConfig::default().enabled);
    assert!(!SystemConfig::default().launch_at_login);
}

#[test]
fn poll_interval_must_be_between_1_and_300() {
    let mut config = Config::default();
    for good in [1, 2, 300] {
        config.monitoring.poll_interval_secs = good;
        assert_eq!(validate_config(&config), Ok(()));
    }
    for bad in [0, 301, u64::MAX] {
        config.monitoring.poll_interval_secs = bad;
        assert_eq!(validate_config(&config), Err(ConfigError::PollInterval(bad)));
    }
    assert_eq!(
        ConfigError::PollInterval(0).message(),
        "poll_interval_secs must be between 1 and 300, got 0"
    );
}

#[test]
fn port_ranges_must_not_begin_above_their_end() {
    let mut config = Config::default();
    config.monitoring.port_ranges = vec![(1, 1), (10, 9), (7, 3)];
    assert_eq!(validate_config(&config), Err(ConfigError::PortRange(10, 9)));
    assert_eq!(
        ConfigError::PortRange(10, 9).message(),
        "invalid port range: start (10) > end (9)"
    );
    config.monitoring.port_ranges = vec![];
    assert_eq!(validate_config(&config), Ok(()));
    config.monitoring.poll_interval_secs = 0;
    config.monitoring.port_ranges = vec![(2, 1)];
    assert_eq!(validate_config(&config), Err(ConfigError::PollInterval(0)));
}

#[test]
fn notifications_for_started_and_stopped_ports() {
    let mut state = AppState::default();
    state.processes = vec![record(3000, 1, "node"), record(3000, 2, "other"), record(5173, 3, "vite")];
    state.project_cache.insert(3, ProjectInfo { name: "shop".to_string(), path: "/w/shop".to_string() });
    let prev = [record(5173, 3, "vite"), record(8000, 9, "python"), record(8000, 10, "python")];
    let notes = maybe_notify_changes(&state, &prev, Platform::MacOs);
    assert_eq!(notes.len(), 2);
    assert_eq!(notes[0].title, "Port 3000 Started");
    assert_eq!(notes[0].body, "node (1)");
    assert_eq!(notes[1].title, "Port 8000 Stopped");
    assert_eq!(notes[1].body, "python (9)");
    let notes = maybe_notify_changes(&state, &[], Platform::MacOs);
    assert_eq!(notes.len(), 2);
    assert_eq!(notes[1].title, "Port 5173 Started");
    assert_eq!(notes[1].body, "vite (3) \u{2022} shop");
    let notes = maybe_notify_changes(&state, &[], Platform::Windows);
    assert_eq!(notes[1].body, "vite (3) \u{e2}\u{20ac}\u{a2} shop");
    state.config.notifications.enabled = false;
    assert!(maybe_notify_changes(&state, &prev, Platform::MacOs).is_empty());
    assert!(notify_startup().is_none());
}

#[test]
fn long_commands_are_cut_to_forty_characters() {
    let mut text = String::new();
    push_truncated(&mut text, &"x".repeat(40), 40);
    assert_eq!(text, "x".repeat(40));
    let mut text = String::from(">");
    push_truncated(&mut text, &"y".repeat(41), 40);
    assert_eq!(text, format!(">{}...", "y".repeat(37)));
    let mut text = String::new();
    push_truncated(&mut text, "abcdef", 2);
    assert_eq!(text, "...");
    let mut text = String::new();
    push_truncated(&mut text, "abcdef", 3);
    assert_eq!(text, "...");
    let mut text = String::new();
    push_truncated(&mut text, "abcdef", 4);
    assert_eq!(text, "a...");
}

#[test]
fn quotes_and_backticks_are_doubled_for_powershell() {
    assert_eq!(escape_powershell("plain"), "plain");
    assert_eq!(escape_powershell("it's `here`"), "it''s ``here``");
    assert_eq!(escape_powershell("''"), "''''");
    assert_eq!(escape_powershell(""), "");
}
