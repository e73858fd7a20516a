use portkiller::model::{AppState, DockerContainerInfo, ProcessInfo, ProjectInfo};
use portkiller::tray_menu::{build_menu_with_context, friendly_container_name, MenuEntry};

fn record(port: u16, pid: i32, command: &str) -> ProcessInfo {
    ProcessInfo { port, pid, command: command.to_string() }
}

fn container(name: &str) -> DockerContainerInfo {
    DockerContainerInfo { name: name.to_string(), id: format!("id-{}", name) }
}

fn shown(menu: &[MenuEntry]) -> Vec<String> {
    menu.iter()
        .map(|e| match e {
            MenuEntry::Item { id, label, enabled } => {
                format!("{}|{}|{}", id, label, if *enabled { "on" } else { "off" })
            }
            MenuEntry::Separator => "---".to_string(),
        })
        .collect()
}

const CLOSING: [&str; 4] = [
    "---",
    "edit_config|Edit Configuration...|on",
    "launch_at_login|Launch at Login|on",
    "quit|Quit|on",
];

#[test]
fn menu_without_listeners() {
    let state = AppState::default();
    let mut expected = vec!["empty|No dev ports listening|off".to_string()];
    expected.extend(CLOSING.iter().map(|s| s.to_string()));
    assert_eq!(shown(&build_menu_with_context(&state)), expected);
}

#[test]
fn menu_with_every_section() {
    let mut state = AppState::default();
    state.processes = vec![
        record(3001, 111, "node"),
        record(3000, 111, "ignored"),
        record(5432, 200, "com.docker.backend"),
        record(5433, 201, "com.docker.backend"),
        record(6379, 300, "redis-server"),
        record(8000, 42, "python"),
        record(8080, 200, "com.docker.backend"),
        record(3306, 500, "mysqld"),
    ];
    state.docker_port_map.insert(5432, container("dev-postgres"));
    state.docker_port_map.insert(5433, container("dev-postgres"));
    state.docker_port_map.insert(8080, container("api"));
    state.brew_services_map.insert("redis".to_string(), "started".to_string());
    state.brew_services_map.insert("mysql".to_string(), "started".to_string());
    state.project_cache.insert(42, ProjectInfo { name: "shop".to_string(), path: "/w".to_string() });
    state.config.system.launch_at_login = true;
    assert_eq!(
        shown(&build_menu_with_context(&state)),
        vec![
            "header_processes|Processes \u{b7} 2|off",
            "process_42_8000|8000 \u{b7} python \u{b7} shop|on",
            "process_111_3000|3000, 3001 \u{b7} node|on",
            "kill_all|Kill All Processes|on",
            "---",
            "header_docker|Docker Containers \u{b7} 2|off",
            "docker_stop_api|8080 \u{b7} Api|on",
            "docker_stop_dev-postgres|5432, 5433 \u{b7} PostgreSQL|on",
            "docker_stop_all|Stop All Containers|on",
            "---",
            "header_brew|Brew Services \u{b7} 2|off",
            "brew_stop_mysql|3306 \u{b7} mysql|on",
            "brew_stop_redis|6379 \u{b7} redis|on",
            "brew_stop_all|Stop All Services|on",
            "---",
            "edit_config|Edit Configuration...|on",
            "launch_at_login|\u{2713} Launch at Login|on",
            "quit|Quit|on",
        ]
    );
}

#[test]
fn menu_with_one_process_has_no_kill_all() {
    let mut state = AppState::default();
    state.processes = vec![record(3000, 7, "node")];
    let mut expected = vec![
        "header_processes|Processes \u{b7} 1|off".to_string(),
        "process_7_3000|3000 \u{b7} node|on".to_string(),
    ];
    expected.extend(CLOSING.iter().map(|s| s.to_string()));
    assert_eq!(shown(&build_menu_with_context(&state)), expected);
}

#[test]
fn menu_with_services_only_has_no_separator_above_them() {
    let mut state = AppState::default();
    state.processes = vec![record(6379, 300, "redis-server"), record(6379, 301, "redis-server")];
    state.brew_services_map.insert("redis".to_string(), "started".to_string());
    let mut expected = vec![
        "header_brew|Brew Services \u{b7} 1|off".to_string(),
        "brew_stop_redis|6379, 6379 \u{b7} redis|on".to_string(),
    ];
    expected.extend(CLOSING.iter().map(|s| s.to_string()));
    assert_eq!(shown(&build_menu_with_context(&state)), expected);
}

#[test]
fn menu_with_containers_and_services_only() {
    let mut state = AppState::default();
    state.processes = vec![record(6379, 300, "redis-server"), record(9000, 1, "x")];
    state.docker_port_map.insert(9000, container("test-dev-nginx"));
    state.brew_services_map.insert("redis".to_string(), "started".to_string());
    let mut expected = vec![
        "header_docker|Docker Containers \u{b7} 1|off".to_string(),
        "docker_stop_test-dev-nginx|9000 \u{b7} Nginx|on".to_string(),
        "---".to_string(),
        "header_brew|Brew Services \u{b7} 1|off".to_string(),
        "brew_stop_redis|6379 \u{b7} redis|on".to_string(),
    ];
    expected.extend(CLOSING.iter().map(|s| s.to_string()));
    assert_eq!(shown(&build_menu_with_context(&state)), expected);
}

#[test]
fn container_names_are_made_friendly() {
    assert_eq!(friendly_container_name("postgres"), "PostgreSQL");
    assert_eq!(friendly_container_name("macport-postgresql"), "PostgreSQL");
    assert_eq!(friendly_container_name("macport-macport-test-dev-dev-mongo"), "MongoDB");
    assert_eq!(friendly_container_name("dev-test-redis"), "Test-redis");
    assert_eq!(friendly_container_name("mongodb"), "MongoDB");
    assert_eq!(friendly_container_name("redis"), "Redis");
    assert_eq!(friendly_container_name("mysql"), "MySQL");
    assert_eq!(friendly_container_name("nginx"), "Nginx");
    assert_eq!(friendly_container_name("rabbitmq"), "RabbitMQ");
    assert_eq!(friendly_container_name("elasticsearch"), "Elasticsearch");
    assert_eq!(friendly_container_name("memcached"), "Memcached");
    assert_eq!(friendly_container_name("my-api"), "My-api");
    assert_eq!(friendly_container_name("Redis"), "Redis");
    assert_eq!(friendly_container_name(""), "");
    assert_eq!(friendly_container_name("dev-"), "");
    assert_eq!(friendly_container_name("\u{df}eta"), "SSeta");
    assert_eq!(friendly_container_name("9lives"), "9lives");
}
