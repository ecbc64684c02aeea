use projects_rs::util::{is_daemon_running, parse_pids, pidof_command};

#[test]
fn pids_from_pidof_output() {
    assert_eq!(parse_pids("1234 5678\n"), vec!["1234".to_string(), "5678".to_string()]);
    assert_eq!(parse_pids("\n"), Vec::<String>::new());
    assert_eq!(parse_pids(""), Vec::<String>::new());
}

#[test]
fn daemon_runs_when_another_process_exists() {
    assert!(is_daemon_running(&parse_pids("42\n")));
    assert!(!is_daemon_running(&parse_pids("  \n")));
}

#[test]
fn pidof_arguments() {
    assert_eq!(pidof_command("projects-rs", 901), vec!["pidof".to_string(), "projects-rs".to_string(), "-o".to_string(), "901".to_string()]);
}
