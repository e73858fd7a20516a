use portkiller::icon::{icon_asset, IconAsset, IconVariant};
use portkiller::kill::{probe_event, signal_event, KillEvent, EPERM, ESRCH};
use portkiller::launch::{get_macos_version, should_use_smappservice};
use portkiller::model::{Platform, ToolReport};
use portkiller::projects::{
    dir_name, get_git_repo_name, get_process_cwd, get_process_executable, is_safe_path,
    path_starts_with, project_name, SafeRoots,
};
use portkiller::utils::{
    candidate_paths, find_command, has_insecure_permissions, is_windows_dark_mode,
};

fn ran(stdout: &str) -> ToolReport {
    ToolReport::Exited { success: true, stdout: stdout.to_string(), stderr: String::new() }
}

fn failed(stdout: &str) -> ToolReport {
    ToolReport::Exited { success: false, stdout: stdout.to_string(), stderr: String::new() }
}

fn roots(home: Option<&str>, temp: Option<&str>) -> SafeRoots {
    SafeRoots { home: home.map(|s| s.to_string()), temp: temp.map(|s| s.to_string()) }
}

#[test]
fn paths_are_compared_part_by_part() {
    let unix = Platform::MacOs;
    assert!(path_starts_with("/home/ann/work", "/home/ann", unix));
    assert!(path_starts_with("/home/ann", "/home/ann", unix));
    assert!(path_starts_with("/home/ann/", "/home/ann", unix));
    assert!(path_starts_with("/home//ann/work", "/home/ann/", unix));
    assert!(!path_starts_with("/home/anna", "/home/ann", unix));
    assert!(!path_starts_with("/home", "/home/ann", unix));
    assert!(!path_starts_with("home/ann", "/home/ann", unix));
    assert!(!path_starts_with("/home/ann", "home/ann", unix));
    assert!(path_starts_with("/anything", "/", unix));
    assert!(path_starts_with("relative/x", "", unix));
    assert!(!path_starts_with("/x", "", unix));
    let windows = Platform::Windows;
    assert!(path_starts_with("C:\\Users\\ann\\work", "C:\\Users\\ann", windows));
    assert!(path_starts_with("C:/Users/ann/work", "C:\\Users\\ann", windows));
    assert!(!path_starts_with("C:\\Users\\anna", "C:\\Users\\ann", windows));
}

#[test]
fn last_part_of_a_path() {
    let unix = Platform::MacOs;
    assert_eq!(dir_name("/home/ann/shop", unix), Some("shop".to_string()));
    assert_eq!(dir_name("/home/ann/shop/", unix), Some("shop".to_string()));
    assert_eq!(dir_name("shop", unix), Some("shop".to_string()));
    assert_eq!(dir_name("/", unix), None);
    assert_eq!(dir_name("", unix), None);
    assert_eq!(dir_name("/home/ann/..", unix), None);
    assert_eq!(dir_name("C:\\work\\api", Platform::Windows), Some("api".to_string()));
    assert_eq!(dir_name("C:\\work\\api", unix), Some("C:\\work\\api".to_string()));
}

#[test]
fn safe_places_on_macos() {
    let r = roots(Some("/Users/ann"), None);
    let mac = Platform::MacOs;
    assert!(is_safe_path("/Users/ann/code/shop", &r, mac));
    assert!(is_safe_path("/private/tmp/build", &r, mac));
    assert!(is_safe_path("/tmp", &r, mac));
    assert!(is_safe_path("/private/var/folders/ab/cd", &r, mac));
    assert!(is_safe_path("/var/folders/x", &r, mac));
    assert!(!is_safe_path("/Users/anna/code", &r, mac));
    assert!(!is_safe_path("/usr/local/bin", &r, mac));
    assert!(!is_safe_path("/tmpfiles", &r, mac));
    assert!(!is_safe_path("/Users/ann/x", &roots(None, None), mac));
    assert!(!is_safe_path("/Projects/x/", &r, mac));
}

#[test]
fn safe_places_on_windows() {
    let r = roots(Some("C:\\Users\\ann"), Some("D:\\Temp"));
    let win = Platform::Windows;
    assert!(is_safe_path("C:\\Users\\ann\\x", &r, win));
    assert!(is_safe_path("D:\\Temp\\y", &r, win));
    assert!(is_safe_path("E:\\Projects\\shop", &r, win));
    assert!(is_safe_path("E:\\work\\SOURCE\\Repos\\shop", &r, win));
    assert!(is_safe_path("E:\\dev\\x", &r, win));
    assert!(is_safe_path("E:\\Code\\x", &r, win));
    assert!(is_safe_path("E:\\My\\Documents\\x", &r, win));
    assert!(!is_safe_path("E:\\Projects", &r, win));
    assert!(!is_safe_path("C:\\Windows\\System32", &r, win));
    assert!(!is_safe_path("C:\\Users\\bob", &r, win));
}

#[test]
fn working_directory_from_lsof() {
    assert_eq!(get_process_cwd(&ran("p123\nfcwd\nn/Users/ann/shop\n")), Some("/Users/ann/shop".to_string()));
    assert_eq!(get_process_cwd(&ran("p123\nn\nn/second\n")), Some(String::new()));
    assert_eq!(get_process_cwd(&ran("p123\nfcwd\n")), None);
    assert_eq!(get_process_cwd(&ran("")), None);
    assert_eq!(get_process_cwd(&failed("n/Users/ann/shop\n")), None);
    assert_eq!(get_process_cwd(&ToolReport::NotStarted { reason: "x".to_string() }), None);
}

#[test]
fn program_path_from_wmic() {
    let printed = "\r\n\r\nExecutablePath=C:\\Program Files\\nodejs\\node.exe\r\n\r\n";
    assert_eq!(
        get_process_executable(&ran(printed)),
        Some("C:\\Program Files\\nodejs\\node.exe".to_string())
    );
    assert_eq!(get_process_executable(&ran("ExecutablePath=\r\n")), Some(String::new()));
    assert_eq!(get_process_executable(&ran("No Instance(s) Available.\r\n")), None);
    assert_eq!(get_process_executable(&failed(printed)), None);
}

#[test]
fn repository_and_project_names() {
    assert_eq!(get_git_repo_name(&ran("/Users/ann/code/shop\n"), Platform::MacOs), Some("shop".to_string()));
    assert_eq!(get_git_repo_name(&ran("  C:/work/api  \r\n"), Platform::Windows), Some("api".to_string()));
    assert_eq!(get_git_repo_name(&ran("\n"), Platform::MacOs), None);
    assert_eq!(get_git_repo_name(&failed("/Users/ann/code/shop\n"), Platform::MacOs), None);
    assert_eq!(project_name(Some("repo".to_string()), Some("dir".to_string())), "repo");
    assert_eq!(project_name(None, Some("dir".to_string())), "dir");
    assert_eq!(project_name(None, None), "(unknown)");
}

#[test]
fn macos_versions() {
    assert_eq!(get_macos_version("14.2.1\n"), Some((14, 2)));
    assert_eq!(get_macos_version("13.0"), Some((13, 0)));
    assert_eq!(get_macos_version(" 10.15.7 "), Some((10, 15)));
    assert_eq!(get_macos_version("14"), None);
    assert_eq!(get_macos_version(""), None);
    assert_eq!(get_macos_version("14.x"), None);
    assert_eq!(get_macos_version("v14.2"), None);
    assert_eq!(get_macos_version("4294967295.4294967296"), None);
    assert_eq!(get_macos_version("4294967295.0"), Some((u32::MAX, 0)));
    assert!(should_use_smappservice(Some((13, 0))));
    assert!(should_use_smappservice(Some((14, 2))));
    assert!(!should_use_smappservice(Some((12, 7))));
    assert!(!should_use_smappservice(None));
}

#[test]
fn tools_are_looked_for_where_homebrew_puts_them() {
    assert_eq!(
        candidate_paths("docker"),
        vec!["/opt/homebrew/bin/docker".to_string(), "/usr/local/bin/docker".to_string()]
    );
    assert_eq!(find_command("docker", &[true, true]), "/opt/homebrew/bin/docker");
    assert_eq!(find_command("docker", &[false, true]), "/usr/local/bin/docker");
    assert_eq!(find_command("docker", &[false, false]), "docker");
    assert_eq!(find_command("docker", &[]), "docker");
    assert_eq!(find_command("docker", &[false]), "docker");
    assert_eq!(find_command("docker", &[false, false, true]), "docker");
    assert_eq!(find_command("brew", &[true]), "/opt/homebrew/bin/brew");
}

#[test]
fn permissions_and_theme() {
    assert!(!has_insecure_permissions(0o600));
    assert!(!has_insecure_permissions(0o100600));
    assert!(!has_insecure_permissions(0o700));
    assert!(has_insecure_permissions(0o644));
    assert!(has_insecure_permissions(0o640));
    assert!(has_insecure_permissions(0o601));
    assert!(is_windows_dark_mode(Some(0)));
    assert!(!is_windows_dark_mode(Some(1)));
    assert!(!is_windows_dark_mode(None));
    assert_eq!(icon_asset(IconVariant::Active, true), IconAsset::FilledLight);
    assert_eq!(icon_asset(IconVariant::Inactive, true), IconAsset::OutlineLight);
    assert_eq!(icon_asset(IconVariant::Active, false), IconAsset::FilledDark);
    assert_eq!(icon_asset(IconVariant::Inactive, false), IconAsset::OutlineDark);
}

#[test]
fn error_numbers_become_events() {
    assert_eq!(probe_event(None), KillEvent::Alive);
    assert_eq!(probe_event(Some(ESRCH)), KillEvent::Gone);
    assert_eq!(probe_event(Some(EPERM)), KillEvent::ProbeFailed(1));
    assert_eq!(probe_event(Some(22)), KillEvent::ProbeFailed(22));
    assert_eq!(signal_event(None), KillEvent::SignalSent);
    assert_eq!(signal_event(Some(ESRCH)), KillEvent::SignalGone);
    assert_eq!(signal_event(Some(EPERM)), KillEvent::SignalDenied);
    assert_eq!(signal_event(Some(22)), KillEvent::SignalFailed(22));
}
