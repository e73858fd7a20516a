use portkiller::brew::{
    get_brew_managed_service, map_brew_service_from_cmd, query_brew_services_map, run_brew_stop,
};
use portkiller::docker::{parse_published_port, query_docker_port_map, run_docker_stop};
use portkiller::model::{FeedbackSeverity, ToolReport};
use portkiller::services::ServiceTable;
use portkiller::windows_services::{
    candidate_services, friendly_service_name, get_service_status, get_windows_managed_service,
    query_windows_services_map, run_service_stop,
};

fn ran(stdout: &str) -> ToolReport {
    ToolReport::Exited { success: true, stdout: stdout.to_string(), stderr: String::new() }
}

fn failed(stdout: &str, stderr: &str) -> ToolReport {
    ToolReport::Exited { success: false, stdout: stdout.to_string(), stderr: stderr.to_string() }
}

fn missing(reason: &str) -> ToolReport {
    ToolReport::NotStarted { reason: reason.to_string() }
}

fn chars(s: &str) -> Vec<char> {
    s.chars().collect()
}

#[test]
fn brew_mapping_happy_and_mismatch() {
    let mut map = ServiceTable::new();
    map.insert("redis".to_string(), "started".to_string());
    map.insert("postgresql".to_string(), "stopped".to_string());

    // Matches default port and started
    assert_eq!(get_brew_managed_service("redis-server", 6379, &map), Some("redis".into()));

    // Wrong port shouldn't match
    assert_eq!(get_brew_managed_service("redis-server", 6380, &map), None);

    // Not started shouldn't match
    assert_eq!(get_brew_managed_service("postgres", 5432, &map), None);

    // Unknown service returns None
    assert_eq!(get_brew_managed_service("myapp", 3000, &map), None);
}

#[test]
fn brew_mapping_ignores_case() {
    assert_eq!(map_brew_service_from_cmd("Redis-Server"), Some("redis".to_string()));
    assert_eq!(map_brew_service_from_cmd("POSTGRES"), Some("postgresql".to_string()));
    assert_eq!(map_brew_service_from_cmd("/usr/bin/mysqld_safe"), Some("mysql".to_string()));
    assert_eq!(map_brew_service_from_cmd("mongod"), Some("mongodb-community".to_string()));
    assert_eq!(map_brew_service_from_cmd("node"), None);
}

#[test]
fn brew_list_is_read_below_its_heading() {
    let listing = "Name       Status  User File\nredis      started me   ~/Library/redis.plist\npostgresql none\nlonely\n\nredis stopped\n";
    let table = query_brew_services_map(&ran(listing));
    assert_eq!(table.len(), 2);
    assert_eq!(table.get("redis"), Some(&"stopped".to_string()));
    assert_eq!(table.get("postgresql"), Some(&"none".to_string()));
    assert_eq!(table.get("Name"), None);
    assert_eq!(table.get("lonely"), None);
    assert_eq!(query_brew_services_map(&failed(listing, "boom")).len(), 0);
    assert_eq!(query_brew_services_map(&missing("no brew")).len(), 0);
    assert_eq!(query_brew_services_map(&ran("")).len(), 0);
}

#[test]
fn brew_stop_feedback() {
    let ok = run_brew_stop("redis", &ran("Stopping `redis`..."));
    assert_eq!(ok.message, "Stopped brew service redis.");
    assert_eq!(ok.severity, FeedbackSeverity::Info);
    let bad = run_brew_stop("redis", &failed("", "Error: Service `redis` is not started.\n"));
    assert_eq!(bad.message, "Failed to stop brew service redis: Error: Service `redis` is not started.\n");
    assert_eq!(bad.severity, FeedbackSeverity::Error);
    let gone = run_brew_stop("redis", &missing("No such file or directory (os error 2)"));
    assert_eq!(gone.message, "brew services error: No such file or directory (os error 2)");
    assert_eq!(gone.severity, FeedbackSeverity::Error);
}

#[test]
fn docker_published_ports() {
    assert_eq!(parse_published_port(&chars("0.0.0.0:5432->5432/tcp")), Some(5432));
    assert_eq!(parse_published_port(&chars("[::]:8080->80/tcp")), Some(8080));
    assert_eq!(parse_published_port(&chars(":::6379->6379/tcp")), Some(6379));
    assert_eq!(parse_published_port(&chars("5432/tcp")), None);
    assert_eq!(parse_published_port(&chars("0.0.0.0:8000-8010->8000-8010/tcp")), None);
    assert_eq!(parse_published_port(&chars("8080->80/tcp")), None);
    assert_eq!(parse_published_port(&chars("0.0.0.0:70000->80/tcp")), None);
    assert_eq!(parse_published_port(&chars("0.0.0.0:->80/tcp")), None);
    assert_eq!(parse_published_port(&chars("")), None);
    assert_eq!(parse_published_port(&chars("->")), None);
    assert_eq!(parse_published_port(&chars("a:1->b:2->c")), Some(1));
}

#[test]
fn docker_listing_maps_host_ports_to_containers() {
    let listing = "abc123\tdev-postgres\t0.0.0.0:5432->5432/tcp, [::]:5432->5432/tcp\ndef456\tcache\t6379/tcp, 0.0.0.0:6380->6379/tcp\nbad line\nghi789\tweb\t\n";
    let map = query_docker_port_map(&ran(listing));
    assert_eq!(map.len(), 2);
    assert_eq!(map[&5432].name, "dev-postgres");
    assert_eq!(map[&5432].id, "abc123");
    assert_eq!(map[&6380].name, "cache");
    assert!(!map.contains_key(&6379));
    assert!(query_docker_port_map(&failed(listing, "daemon not running")).is_empty());
    assert!(query_docker_port_map(&missing("no docker")).is_empty());
}

#[test]
fn docker_port_published_twice_goes_to_the_later_container() {
    let listing = "1\tfirst\t0.0.0.0:3000->3000/tcp\n2\tsecond\t0.0.0.0:3000->80/tcp\n";
    let map = query_docker_port_map(&ran(listing));
    assert_eq!(map.len(), 1);
    assert_eq!(map[&3000].name, "second");
}

#[test]
fn docker_stop_feedback() {
    let ok = run_docker_stop("web", &ran("web\n"));
    assert_eq!(ok.message, "Stopped container web.");
    assert_eq!(ok.severity, FeedbackSeverity::Info);
    let bad = run_docker_stop("web", &failed("", "No such container: web"));
    assert_eq!(bad.message, "Failed to stop container web: No such container: web");
    assert_eq!(bad.severity, FeedbackSeverity::Error);
    let gone = run_docker_stop("web", &missing("not found"));
    assert_eq!(gone.message, "docker stop error: not found");
    assert_eq!(gone.severity, FeedbackSeverity::Error);
}

#[test]
fn windows_service_status_words() {
    assert_eq!(get_service_status(&ran("STATE : 4  RUNNING")), Some("running".to_string()));
    assert_eq!(get_service_status(&ran("STATE : 1  STOPPED")), Some("stopped".to_string()));
    assert_eq!(get_service_status(&ran("STATE : 2  START_PENDING")), Some("pending".to_string()));
    assert_eq!(get_service_status(&failed("STATE : 4  RUNNING", "")), Some("running".to_string()));
    assert_eq!(get_service_status(&ran("The specified service does not exist")), None);
    assert_eq!(get_service_status(&missing("no sc")), None);
}

#[test]
fn windows_services_table_and_match() {
    let names = candidate_services();
    assert_eq!(names.len(), 13);
    assert_eq!(names[0], "postgresql-x64-16");
    assert_eq!(names[12], "MongoDB");
    let answers = vec![
        ("postgresql-x64-16".to_string(), ran("STATE : 1  STOPPED")),
        ("postgresql-x64-15".to_string(), ran("STATE : 4  RUNNING")),
        ("MySQL80".to_string(), ran("does not exist")),
        ("MSSQL$SQLEXPRESS".to_string(), ran("STATE : 4  RUNNING")),
        ("Redis".to_string(), missing("no sc")),
    ];
    let table = query_windows_services_map(&answers);
    assert_eq!(table.len(), 3);
    assert_eq!(
        get_windows_managed_service("postgres.exe", 5432, &table),
        Some("postgresql-x64-15".to_string())
    );
    assert_eq!(get_windows_managed_service("postgres.exe", 5433, &table), None);
    assert_eq!(
        get_windows_managed_service("sqlservr.exe", 1433, &table),
        Some("MSSQL$SQLEXPRESS".to_string())
    );
    assert_eq!(get_windows_managed_service("mysqld.exe", 3306, &table), None);
    assert_eq!(get_windows_managed_service("node.exe", 3000, &table), None);
}

#[test]
fn windows_friendly_names() {
    assert_eq!(friendly_service_name("postgresql-x64-16"), "PostgreSQL");
    assert_eq!(friendly_service_name("MySQL80"), "MySQL");
    assert_eq!(friendly_service_name("MSSQL$SQLEXPRESS"), "SQL Server Express");
    assert_eq!(friendly_service_name("MSSQLSERVER"), "SQL Server");
    assert_eq!(friendly_service_name("Redis"), "Redis");
    assert_eq!(friendly_service_name("MongoDB"), "MongoDB");
    assert_eq!(friendly_service_name("Spooler"), "Spooler");
}

#[test]
fn windows_service_stop_feedback() {
    let ok = run_service_stop("Redis", &ran("SERVICE_NAME: Redis"));
    assert_eq!(ok.message, "Stopped service Redis.");
    assert_eq!(ok.severity, FeedbackSeverity::Info);
    let denied = run_service_stop("Redis", &failed("[SC] OpenService FAILED 5:\r\n\r\nAccess is denied.\r\n", ""));
    assert_eq!(denied.message, "Access denied stopping Redis. Run as Administrator.");
    assert_eq!(denied.severity, FeedbackSeverity::Error);
    let idle = run_service_stop("Redis", &failed("ignored", "The service was not started."));
    assert_eq!(idle.message, "Service Redis is not running.");
    assert_eq!(idle.severity, FeedbackSeverity::Warning);
    let idle = run_service_stop("Redis", &failed("failed (1062)", ""));
    assert_eq!(idle.message, "Service Redis is not running.");
    let unmatched = run_service_stop("Redis", &failed("", "The service has not been started."));
    assert_eq!(unmatched.message, "Failed to stop Redis: The service has not been started.");
    assert_eq!(unmatched.severity, FeedbackSeverity::Error);
    let other = run_service_stop("Redis", &failed("  [SC] ControlService FAILED 1061  \r\n", ""));
    assert_eq!(other.message, "Failed to stop Redis: [SC] ControlService FAILED 1061");
    assert_eq!(other.severity, FeedbackSeverity::Error);
    let gone = run_service_stop("Redis", &missing("program not found"));
    assert_eq!(gone.message, "Service control error: program not found");
    assert_eq!(gone.severity, FeedbackSeverity::Error);
}

#[test]
fn service_table_behaves_like_a_map() {
    let mut table = ServiceTable::new();
    assert_eq!(table.len(), 0);
    table.insert("a".to_string(), "1".to_string());
    table.insert("b".to_string(), "2".to_string());
    table.insert("a".to_string(), "3".to_string());
    assert_eq!(table.len(), 2);
    assert_eq!(table.get("a"), Some(&"3".to_string()));
    assert_eq!(table.get("b"), Some(&"2".to_string()));
    assert_eq!(table.get("c"), None);
    assert_eq!(table.entries[0].0, "a");
    table.clear();
    assert_eq!(table.len(), 0);
    assert_eq!(table.get("a"), None);
}
