use projects_rs::cli::{Daemon, DaemonCommands};
use projects_rs::commands::{
    attach_input, attach_outcome, attach_output, daemon, daemon_status_outcome, delete_outcome,
    first_position, kill_daemon, kill_outcome, list_outcome, path_answer, required_answer,
    resolve_configs_dir, start_main_args, start_outcome, stop_outcome, AttachInput, AttachOutput,
    ClientError, DaemonTask,
};
use projects_rs::data::Message;

fn s(x: &str) -> String {
    x.to_string()
}

#[test]
fn daemon_subcommands() {
    assert_eq!(daemon(Daemon { command: DaemonCommands::Start { configs_dir: Some(s("/c")) } }), DaemonTask::Start { configs_dir: Some(s("/c")) });
    assert_eq!(daemon(Daemon { command: DaemonCommands::Status }), DaemonTask::Status);
    assert_eq!(daemon(Daemon { command: DaemonCommands::Kill }), DaemonTask::Kill);
    assert_eq!(daemon(Daemon { command: DaemonCommands::Stop { force: true } }), DaemonTask::Stop { force: true });
}

#[test]
fn configs_dir_defaults_to_home() {
    assert_eq!(resolve_configs_dir(Some(s("/c")), None), Ok(s("/c")));
    assert_eq!(resolve_configs_dir(None, Some(s("/home/u"))), Ok(s("/home/u/.projects-rs")));
    assert_eq!(resolve_configs_dir(None, None), Err(ClientError::NoHome));
    assert_eq!(ClientError::NoHome.describe(), "cannot find home, please specify configs dir");
    assert_eq!(ClientError::UnknownMessage.describe(), "unknown message");
}

#[test]
fn daemon_start_arguments() {
    assert_eq!(start_main_args("/c"), vec![s("daemon"), s("start-main"), s("/c")]);
}

#[test]
fn status_line() {
    assert_eq!(daemon_status_outcome(Message::DaemonStatusResponse { config_dir: s("/c") }), Ok(s("configs dir: /c")));
    assert_eq!(daemon_status_outcome(Message::Empty), Err(ClientError::UnknownMessage));
}

#[test]
fn kill_daemon_commands() {
    assert_eq!(kill_daemon(&Vec::new()), None);
    assert_eq!(kill_daemon(&vec![s("12"), s("34")]), Some(vec![vec![s("kill"), s("-9"), s("12")], vec![s("kill"), s("-9"), s("34")]]));
}

#[test]
fn project_command_lines() {
    assert_eq!(delete_outcome(Message::DeleteProjectResponse { success: true }), Ok("Project deleted"));
    assert_eq!(delete_outcome(Message::DeleteProjectResponse { success: false }), Ok("Project does not exist?"));
    assert_eq!(delete_outcome(Message::Poll), Err(ClientError::UnknownMessage));
    assert_eq!(kill_outcome(Message::KillProjectResponse { success: true }), Ok("killed (probably)"));
    assert_eq!(kill_outcome(Message::KillProjectResponse { success: false }), Ok("not killed?!"));
    assert_eq!(kill_outcome(Message::StopProjectResponse { success: true }), Err(ClientError::UnknownMessage));
    assert_eq!(start_outcome(Message::StartProjectResponse { success: true }), Ok("started"));
    assert_eq!(start_outcome(Message::StartProjectResponse { success: false }), Ok("failed to start"));
    assert_eq!(start_outcome(Message::Empty), Err(ClientError::UnknownMessage));
    assert_eq!(stop_outcome(Message::StopProjectResponse { success: true }), Ok("stopped?"));
    assert_eq!(stop_outcome(Message::StopProjectResponse { success: false }), Ok("failed to stop"));
    assert_eq!(stop_outcome(Message::Detach), Err(ClientError::UnknownMessage));
    assert_eq!(attach_outcome(Message::AttachProjectResponse { success: false }), Ok(false));
    assert_eq!(attach_outcome(Message::Poll), Err(ClientError::UnknownMessage));
}

#[test]
fn list_lines_are_numbered() {
    let m = Message::ListProjectsResponse { projects: (0..11).map(|i| format!("p{}", i)).collect() };
    let lines = list_outcome(m).unwrap();
    assert_eq!(lines.len(), 11);
    assert_eq!(lines[0], "1. p0");
    assert_eq!(lines[10], "11. p10");
    assert_eq!(list_outcome(Message::ListProjectsResponse { projects: Vec::new() }), Ok(Vec::new()));
    assert_eq!(list_outcome(Message::NewProjectResponse), Err(ClientError::UnknownMessage));
}

#[test]
fn attach_session_client_side() {
    assert_eq!(attach_output(Message::Poll), Ok(AttachOutput::Idle));
    assert_eq!(attach_output(Message::Detach), Ok(AttachOutput::Detached));
    assert_eq!(attach_output(Message::AttachData { data: vec![104, 105] }), Ok(AttachOutput::Show(vec![104, 105])));
    assert_eq!(attach_output(Message::Empty), Err(ClientError::UnknownMessage));
    assert_eq!(attach_input(None), AttachInput::Idle);
    assert_eq!(attach_input(Some(vec![108, 115, 10])), AttachInput::Forward(vec![108, 115, 10]));
    assert_eq!(attach_input(Some(vec![97, 3, 98, 3])), AttachInput::Leave(vec![97]));
    assert_eq!(attach_input(Some(vec![3])), AttachInput::Leave(Vec::new()));
    assert_eq!(first_position(&vec![1, 3, 3], 3), Some(1));
    assert_eq!(first_position(&vec![1, 2], 3), None);
}

#[test]
fn prompt_answers() {
    assert_eq!(required_answer("  web \n"), Some(s("web")));
    assert_eq!(required_answer(" \n"), None);
    assert_eq!(path_answer("\n"), ".");
    assert_eq!(path_answer(" /srv/app \n"), "/srv/app");
}

#[test]
fn attach_turn_messages() {
    assert_eq!(attach_input(None).messages(), vec![Message::Poll]);
    assert_eq!(attach_input(Some(vec![108, 115])).messages(), vec![Message::AttachData { data: vec![108, 115] }]);
    assert_eq!(attach_input(Some(vec![97, 3, 98])).messages(), vec![Message::AttachData { data: vec![97] }, Message::Detach]);
    assert!(attach_input(Some(vec![3])).ends_session());
    assert!(!attach_input(Some(vec![4])).ends_session());
    assert!(!attach_input(None).ends_session());
}
