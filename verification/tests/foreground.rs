use portkiller::config::Config;
use portkiller::icon::{icon_for, IconVariant};
use portkiller::model::{
    AppState, DockerContainerInfo, FeedbackSeverity, KillFeedback, MenuAction, Platform,
    ProcessInfo, ProjectInfo, WorkerCommand,
};
use portkiller::reactor::{
    all_container_names, apply_refresh, config_opened, dispatch_failed, managed_services,
    missing_project_pids, needs_refresh, on_config_reloaded, on_error_message, on_kill_feedback,
    on_launch_toggled, on_manual_reload, on_processes_updated, on_save_failed, plan_menu_action,
    ports_changed, prune_project_cache, regular_processes, wants_launch_state,
    IntegrationRefresh, Reaction, SaveRequest, INTEGRATION_REFRESH_MS,
};
use portkiller::services::ServiceTable;
use portkiller::watcher::{reload_failed_message, FileChange, ReloadClock, CONFIG_DEBOUNCE_MS};
use std::collections::HashMap;

fn record(port: u16, pid: i32, command: &str) -> ProcessInfo {
    ProcessInfo { port, pid, command: command.to_string() }
}

fn container(name: &str) -> DockerContainerInfo {
    DockerContainerInfo { name: name.to_string(), id: format!("id-{}", name) }
}

fn busy_state() -> AppState {
    let mut state = AppState::default();
    state.processes = vec![
        record(3000, 111, "node"),
        record(3001, 111, "node"),
        record(5432, 200, "com.docker.backend"),
        record(6379, 300, "redis-server"),
        record(8000, 400, "python"),
    ];
    state.docker_port_map.insert(5432, container("dev-postgres"));
    state.docker_port_map.insert(9999, container("hidden"));
    state.docker_port_map.insert(5433, container("dev-postgres"));
    state.brew_services_map.insert("redis".to_string(), "started".to_string());
    state
}

#[test]
fn only_the_set_of_ports_counts_as_a_change_of_ports() {
    let a = [record(3000, 1, "a"), record(3001, 2, "b")];
    let same_ports = [record(3001, 9, "x"), record(3000, 8, "y"), record(3000, 7, "z")];
    let fewer = [record(3000, 1, "a")];
    assert!(!ports_changed(&a, &same_ports));
    assert!(!ports_changed(&[], &[]));
    assert!(ports_changed(&a, &fewer));
    assert!(ports_changed(&fewer, &a));
    assert!(ports_changed(&[], &fewer));
}

#[test]
fn integrations_refresh_on_port_change_or_when_due() {
    assert!(needs_refresh(true, 0));
    assert!(needs_refresh(false, INTEGRATION_REFRESH_MS));
    assert!(!needs_refresh(false, INTEGRATION_REFRESH_MS - 1));
    let mut state = busy_state();
    state.config.integrations.brew_enabled = false;
    let before = state.processes.clone();
    let plan = on_processes_updated(&mut state, before.clone(), 10);
    assert_eq!(plan.previous, before);
    assert!(!plan.query_docker && !plan.query_brew && !plan.query_windows_services);
    let plan = on_processes_updated(&mut state, before.clone(), 5000);
    assert!(plan.query_docker && !plan.query_brew && plan.query_windows_services);
    let plan = on_processes_updated(&mut state, vec![record(4000, 1, "new")], 0);
    assert!(plan.query_docker && !plan.query_brew && plan.query_windows_services);
    assert_eq!(plan.previous, before);
    assert_eq!(state.processes, vec![record(4000, 1, "new")]);
}

#[test]
fn refresh_answers_are_stored_and_disabled_integrations_cleared() {
    let mut state = busy_state();
    let mut fresh = HashMap::new();
    fresh.insert(8080, container("web"));
    apply_refresh(
        &mut state,
        IntegrationRefresh { docker: Some(fresh), brew: None, windows_services: None },
    );
    assert_eq!(state.docker_port_map.len(), 1);
    assert_eq!(state.docker_port_map[&8080].name, "web");
    assert_eq!(state.brew_services_map.len(), 1);
    state.config.integrations.docker_enabled = false;
    state.config.integrations.brew_enabled = false;
    let mut table = ServiceTable::new();
    table.insert("mysql".to_string(), "started".to_string());
    apply_refresh(
        &mut state,
        IntegrationRefresh { docker: None, brew: Some(table.clone()), windows_services: Some(table) },
    );
    assert!(state.docker_port_map.is_empty());
    assert_eq!(state.brew_services_map.len(), 0);
    assert_eq!(state.windows_services_map.len(), 1);
}

#[test]
fn project_cache_follows_the_listeners() {
    let mut state = busy_state();
    state.project_cache.insert(111, ProjectInfo { name: "shop".to_string(), path: "/w/shop".to_string() });
    state.project_cache.insert(999, ProjectInfo { name: "gone".to_string(), path: "/w/gone".to_string() });
    assert_eq!(missing_project_pids(&state), vec![200, 300, 400]);
    prune_project_cache(&mut state);
    assert_eq!(state.project_cache.len(), 1);
    assert_eq!(state.project_cache[&111].name, "shop");
    assert_eq!(state.project_cache[&111].path, "/w/shop");
    assert_eq!(state.processes.len(), 5);
}

#[test]
fn ordinary_processes_exclude_containers_and_managed_services() {
    let state = busy_state();
    assert_eq!(
        regular_processes(&state, Platform::MacOs),
        vec![record(3000, 111, "node"), record(3001, 111, "node"), record(8000, 400, "python")]
    );
    assert_eq!(
        regular_processes(&state, Platform::Windows),
        vec![
            record(3000, 111, "node"),
            record(3001, 111, "node"),
            record(6379, 300, "redis-server"),
            record(8000, 400, "python"),
        ]
    );
    assert_eq!(managed_services(&state, Platform::MacOs), vec!["redis".to_string()]);
    assert!(managed_services(&state, Platform::Windows).is_empty());
    assert_eq!(
        all_container_names(&state.docker_port_map),
        vec!["dev-postgres".to_string(), "hidden".to_string()]
    );
}

#[test]
fn kill_pid_goes_to_the_worker_or_says_why_not() {
    let state = busy_state();
    match plan_menu_action(&state, MenuAction::KillPid { pid: 111 }, true, Platform::MacOs) {
        Reaction::Dispatch(list) => {
            assert_eq!(list.len(), 1);
            assert!(matches!(
                &list[0],
                WorkerCommand::KillPid(t) if t.pid == 111 && t.label == "node (ports 3000, 3001)"
            ));
        }
        other => panic!("unexpected {:?}", other),
    }
    match plan_menu_action(&state, MenuAction::KillPid { pid: 111 }, false, Platform::MacOs) {
        Reaction::Feedback(f) => {
            assert_eq!(f.message, "Worker unavailable for PID 111.");
            assert_eq!(f.severity, FeedbackSeverity::Error);
        }
        other => panic!("unexpected {:?}", other),
    }
    match plan_menu_action(&state, MenuAction::KillPid { pid: 5 }, true, Platform::MacOs) {
        Reaction::Feedback(f) => {
            assert_eq!(f.message, "PID 5 is no longer active.");
            assert_eq!(f.severity, FeedbackSeverity::Info);
        }
        other => panic!("unexpected {:?}", other),
    }
}

#[test]
fn kill_all_targets_ordinary_processes_only() {
    let state = busy_state();
    match plan_menu_action(&state, MenuAction::KillAll, true, Platform::MacOs) {
        Reaction::Dispatch(list) => match &list[..] {
            [WorkerCommand::KillAll(targets)] => {
                let shown: Vec<(i32, &str)> =
                    targets.iter().map(|t| (t.pid, t.label.as_str())).collect();
                assert_eq!(shown, vec![(111, "node (ports 3000, 3001)"), (400, "python (port 8000)")]);
            }
            other => panic!("unexpected {:?}", other),
        },
        other => panic!("unexpected {:?}", other),
    }
    match plan_menu_action(&state, MenuAction::KillAll, false, Platform::MacOs) {
        Reaction::Feedback(f) => {
            assert_eq!(f.message, "Worker unavailable for batch request.");
            assert_eq!(f.severity, FeedbackSeverity::Error);
        }
        other => panic!("unexpected {:?}", other),
    }
    let mut quiet = AppState::default();
    quiet.processes = vec![record(5432, 200, "com.docker.backend")];
    quiet.docker_port_map.insert(5432, container("db"));
    for worker in [true, false] {
        match plan_menu_action(&quiet, MenuAction::KillAll, worker, Platform::MacOs) {
            Reaction::Feedback(f) => {
                assert_eq!(f.message, "No dev port listeners to terminate.");
                assert_eq!(f.severity, FeedbackSeverity::Info);
            }
            other => panic!("unexpected {:?}", other),
        }
    }
}

#[test]
fn stop_requests_need_the_worker() {
    let state = busy_state();
    let stop = MenuAction::DockerStop { container: "web".to_string() };
    assert!(matches!(
        plan_menu_action(&state, stop.clone(), true, Platform::MacOs),
        Reaction::Dispatch(list) if matches!(&list[..], [WorkerCommand::DockerStop { container }] if container == "web")
    ));
    match plan_menu_action(&state, stop, false, Platform::MacOs) {
        Reaction::Feedback(f) => {
            assert_eq!(f.message, "Worker unavailable for container web.");
            assert_eq!(f.severity, FeedbackSeverity::Error);
        }
        other => panic!("unexpected {:?}", other),
    }
    match plan_menu_action(&state, MenuAction::DockerStopAll, true, Platform::MacOs) {
        Reaction::Dispatch(list) => {
            let names: Vec<String> = list
                .iter()
                .map(|c| match c {
                    WorkerCommand::DockerStop { container } => container.clone(),
                    other => panic!("unexpected {:?}", other),
                })
                .collect();
            assert_eq!(names, vec!["dev-postgres", "hidden"]);
        }
        other => panic!("unexpected {:?}", other),
    }
    assert!(matches!(
        plan_menu_action(&state, MenuAction::BrewStopAll, true, Platform::MacOs),
        Reaction::Dispatch(list) if matches!(&list[..], [WorkerCommand::BrewStop { service }] if service == "redis")
    ));
    assert!(matches!(
        plan_menu_action(&state, MenuAction::WindowsServiceStopAll, true, Platform::Windows),
        Reaction::Dispatch(list) if list.is_empty()
    ));
    match plan_menu_action(&state, MenuAction::BrewStop { service: "redis".to_string() }, false, Platform::MacOs) {
        Reaction::Feedback(f) => {
            assert_eq!(f.message, "Worker unavailable for service redis.");
            assert_eq!(f.severity, FeedbackSeverity::Error);
        }
        other => panic!("unexpected {:?}", other),
    }
    for all in [MenuAction::DockerStopAll, MenuAction::BrewStopAll, MenuAction::WindowsServiceStopAll] {
        match plan_menu_action(&state, all, false, Platform::MacOs) {
            Reaction::Feedback(f) => {
                assert_eq!(f.message, "Worker unavailable for batch request.");
                assert_eq!(f.severity, FeedbackSeverity::Error);
            }
            other => panic!("unexpected {:?}", other),
        }
    }
    assert!(matches!(
        plan_menu_action(&state, MenuAction::WindowsServiceStop { service: "Redis".to_string() }, true, Platform::Windows),
        Reaction::Dispatch(list) if matches!(&list[..], [WorkerCommand::WindowsServiceStop { service }] if service == "Redis")
    ));
}

#[test]
fn other_picks_pass_through() {
    let mut state = busy_state();
    assert!(matches!(plan_menu_action(&state, MenuAction::Quit, false, Platform::MacOs), Reaction::Quit));
    assert!(matches!(plan_menu_action(&state, MenuAction::EditConfig, true, Platform::MacOs), Reaction::EditConfig));
    assert!(matches!(plan_menu_action(&state, MenuAction::ReloadConfig, true, Platform::MacOs), Reaction::ReloadConfig));
    assert!(matches!(
        plan_menu_action(&state, MenuAction::LaunchAtLogin, true, Platform::MacOs),
        Reaction::ToggleLaunchAtLogin { enable: true }
    ));
    state.config.system.launch_at_login = true;
    assert!(matches!(
        plan_menu_action(&state, MenuAction::LaunchAtLogin, true, Platform::MacOs),
        Reaction::ToggleLaunchAtLogin { enable: false }
    ));
}

#[test]
fn events_set_the_last_feedback() {
    let mut state = AppState::default();
    on_kill_feedback(&mut state, KillFeedback::warning("w".to_string()));
    assert_eq!(state.last_feedback.as_ref().unwrap().message, "w");
    on_error_message(&mut state, "lsof sweep failed: x".to_string());
    let last = state.last_feedback.clone().unwrap();
    assert_eq!((last.message.as_str(), last.severity), ("lsof sweep failed: x", FeedbackSeverity::Error));
    let mut config = Config::default();
    config.monitoring.poll_interval_secs = 9;
    on_config_reloaded(&mut state, config.clone());
    assert_eq!(state.config.monitoring.poll_interval_secs, 9);
    let last = state.last_feedback.clone().unwrap();
    assert_eq!((last.message.as_str(), last.severity), ("Configuration reloaded", FeedbackSeverity::Info));
    on_manual_reload(&mut state, Err("bad json".to_string()));
    assert_eq!(state.config.monitoring.poll_interval_secs, 9);
    let last = state.last_feedback.clone().unwrap();
    assert_eq!((last.message.as_str(), last.severity), ("Reload failed: bad json", FeedbackSeverity::Error));
    config.monitoring.poll_interval_secs = 4;
    on_manual_reload(&mut state, Ok(config));
    assert_eq!(state.config.monitoring.poll_interval_secs, 4);
    on_save_failed(&mut state, "disk full");
    assert_eq!(state.last_feedback.clone().unwrap().message, "Failed to save config: disk full");
    let one = WorkerCommand::KillPid(portkiller::model::KillTarget { pid: 1, label: "x".to_string() });
    let all = WorkerCommand::KillAll(vec![]);
    let stop = WorkerCommand::DockerStop { container: "web".to_string() };
    assert_eq!(dispatch_failed(&one, "closed").message, "Unable to dispatch kill command: closed");
    assert_eq!(dispatch_failed(&all, "closed").message, "Unable to dispatch kill-all command: closed");
    assert_eq!(dispatch_failed(&stop, "closed").message, "Unable to dispatch stop command: closed");
    assert_eq!(dispatch_failed(&all, "closed").severity, FeedbackSeverity::Error);
    assert_eq!(config_opened("/home/me/.portkiller.json").message, "Opened config file: /home/me/.portkiller.json");
    assert_eq!(reload_failed_message("x"), "Config reload failed: x");
}

#[test]
fn launch_at_login_follows_what_the_system_reports() {
    let mut state = AppState::default();
    let save = on_launch_toggled(&mut state, &Ok(()), &Ok(true));
    assert_eq!(save, SaveRequest::Save);
    assert!(state.config.system.launch_at_login);
    assert_eq!(state.last_feedback.clone().unwrap().message, "Launch at login enabled");
    let save = on_launch_toggled(&mut state, &Ok(()), &Ok(false));
    assert_eq!(save, SaveRequest::Save);
    assert!(!state.config.system.launch_at_login);
    assert_eq!(state.last_feedback.clone().unwrap().message, "Launch at login disabled");
    let save = on_launch_toggled(&mut state, &Ok(()), &Err("no status".to_string()));
    assert_eq!(save, SaveRequest::Keep);
    let last = state.last_feedback.clone().unwrap();
    assert_eq!(last.message, "Failed to verify launch-at-login state: no status");
    assert_eq!(last.severity, FeedbackSeverity::Error);
    let approval = Err("Please approve PortKiller in System Settings > Login Items".to_string());
    let save = on_launch_toggled(&mut state, &approval, &Ok(true));
    assert_eq!(save, SaveRequest::SaveQuietly);
    assert!(state.config.system.launch_at_login);
    let last = state.last_feedback.clone().unwrap();
    assert_eq!(last.message, "Please approve in System Settings > Login Items");
    assert_eq!(last.severity, FeedbackSeverity::Warning);
    let save = on_launch_toggled(&mut state, &approval, &Err("x".to_string()));
    assert_eq!(save, SaveRequest::Keep);
    assert!(state.config.system.launch_at_login);
    let save = on_launch_toggled(&mut state, &Err("registry locked".to_string()), &Ok(false));
    assert_eq!(save, SaveRequest::Keep);
    assert!(state.config.system.launch_at_login);
    let last = state.last_feedback.clone().unwrap();
    assert_eq!(last.message, "Failed to toggle launch-at-login: registry locked");
    assert_eq!(last.severity, FeedbackSeverity::Error);
}

#[test]
fn reloads_are_at_least_half_a_second_apart() {
    let mut clock = ReloadClock::new();
    assert!(!clock.on_file_event(FileChange::Other, 0));
    assert!(clock.on_file_event(FileChange::Modified, 1_000));
    assert!(!clock.on_file_event(FileChange::Modified, 1_000 + CONFIG_DEBOUNCE_MS - 1));
    assert!(!clock.on_file_event(FileChange::Created, 900));
    assert!(clock.on_file_event(FileChange::Created, 1_000 + CONFIG_DEBOUNCE_MS));
    assert_eq!(clock.last_reload_ms, Some(1_500));
    assert!(!clock.on_file_event(FileChange::Other, 10_000));
    assert_eq!(clock.last_reload_ms, Some(1_500));
}

#[test]
fn icon_shows_whether_anything_listens() {
    assert_eq!(icon_for(0), IconVariant::Inactive);
    assert_eq!(icon_for(1), IconVariant::Active);
    assert_eq!(icon_for(usize::MAX), IconVariant::Active);
}

#[test]
fn launch_state_is_asked_for_only_where_it_is_read() {
    assert!(wants_launch_state(&Ok(())));
    assert!(wants_launch_state(&Err("Please approve PortKiller".to_string())));
    assert!(wants_launch_state(&Err("see Login Items".to_string())));
    assert!(!wants_launch_state(&Err("registry locked".to_string())));
    assert!(!wants_launch_state(&Err(String::new())));
    let failed = Err("registry locked".to_string());
    let mut one = AppState::default();
    let mut other = AppState::default();
    let a = on_launch_toggled(&mut one, &failed, &Ok(true));
    let b = on_launch_toggled(&mut other, &failed, &Err("not asked".to_string()));
    assert_eq!(a, b);
    assert_eq!(one.config.system.launch_at_login, other.config.system.launch_at_login);
    assert_eq!(one.last_feedback.unwrap().message, other.last_feedback.unwrap().message);
}
