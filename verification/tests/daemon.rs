use projects_rs::commands::{kill_outcome, start_outcome, stop_outcome, delete_outcome, attach_outcome, list_outcome, daemon_status_outcome, ClientError};
use projects_rs::daemon::{
    attach_answer, attach_project, attach_turn, config_path, date, delete_project, handle_message,
    kill_args, kill_project, launch, list_projects, logs_dir, new_project, send_daemon_status,
    start_project, start_refused, started, stop_daemon, stop_project, AttachTurn, DaemonError,
    Request,
};
use projects_rs::data::{Message, Project};
use projects_rs::procs::{Proc, ProcTable};

fn s(x: &str) -> String {
    x.to_string()
}

fn table() -> ProcTable {
    let mut t = ProcTable::new();
    t.insert(Proc { name: s("web"), pid: 5, log_file: s("/cfg/logs/web.log") });
    t.insert(Proc { name: s("db"), pid: 77, log_file: s("/cfg/logs/db.log") });
    t
}

fn web() -> Project {
    Project { name: s("web"), path: s("/srv/web"), command: s("npm start") }
}

#[test]
fn requests_are_routed() {
    assert_eq!(handle_message(Message::StopDaemon { force: true }), Ok(Request::StopDaemon { force: true }));
    assert_eq!(handle_message(Message::DaemonStatusRequest), Ok(Request::Status));
    assert_eq!(handle_message(Message::NewProjectRequest { project: web() }), Ok(Request::New { project: web() }));
    assert_eq!(handle_message(Message::ListProjectsRequest), Ok(Request::List));
    assert_eq!(handle_message(Message::DeleteProjectRequest { project: s("a") }), Ok(Request::Delete { project: s("a") }));
    assert_eq!(handle_message(Message::StartProjectRequest { project: s("a") }), Ok(Request::Start { project: s("a") }));
    assert_eq!(handle_message(Message::AttachProjectRequest { project: s("a") }), Ok(Request::Attach { project: s("a") }));
    assert_eq!(handle_message(Message::StopProjectRequest { project: s("a") }), Ok(Request::Stop { project: s("a") }));
    assert_eq!(handle_message(Message::KillProjectRequest { project: s("a") }), Ok(Request::Kill { project: s("a") }));
}

#[test]
fn other_messages_are_refused() {
    for m in [Message::Empty, Message::Poll, Message::Detach, Message::NewProjectResponse, Message::StartProjectResponse { success: true }, Message::AttachData { data: vec![1] }] {
        assert_eq!(handle_message(m), Err(DaemonError::UnknownMessage));
    }
    assert_eq!(DaemonError::UnknownMessage.describe(), "unknown message");
}

#[test]
fn configuration_and_log_paths() {
    assert_eq!(config_path("/cfg", "web"), "/cfg/web.toml");
    assert_eq!(config_path("/cfg/", "web"), "/cfg/web.toml");
    assert_eq!(config_path("/cfg", "/etc/evil"), "/etc/evil.toml");
    assert_eq!(logs_dir("/home/u/.projects-rs"), "/home/u/.projects-rs/logs");
}

#[test]
fn date_stamp_from_date_output() {
    assert_eq!(date("2024-05-06 07:08:09+02:00\n"), "2024-05-06_07:08:09+02:00");
    assert_eq!(date("  a b \n"), "a_b");
}

#[test]
fn kill_arguments() {
    assert_eq!(kill_args(42, false), vec![s("42")]);
    assert_eq!(kill_args(42, true), vec![s("-9"), s("42")]);
}

#[test]
fn stopping_the_daemon_kills_every_process() {
    let (reply, kills) = stop_daemon(&table(), true);
    assert_eq!(reply, Message::Empty);
    assert_eq!(kills, vec![vec![s("-9"), s("5")], vec![s("-9"), s("77")]]);
    let (_, kills) = stop_daemon(&table(), false);
    assert_eq!(kills, vec![vec![s("5")], vec![s("77")]]);
    let (_, kills) = stop_daemon(&ProcTable::new(), false);
    assert!(kills.is_empty());
}

#[test]
fn stop_and_kill_project() {
    let t = table();
    assert_eq!(stop_project(&t, &s("db")), (Some(vec![s("77")]), Message::StopProjectResponse { success: true }));
    assert_eq!(stop_project(&t, &s("x")), (None, Message::StopProjectResponse { success: false }));
    assert_eq!(kill_project(&t, &s("web")), (Some(vec![s("-9"), s("5")]), Message::StopProjectResponse { success: true }));
    assert_eq!(kill_project(&t, &s("x")), (None, Message::StopProjectResponse { success: false }));
}

#[test]
fn status_new_delete_replies() {
    assert_eq!(send_daemon_status("/cfg"), Message::DaemonStatusResponse { config_dir: s("/cfg") });
    assert_eq!(new_project("/cfg", &web()), (s("/cfg/web.toml"), Message::NewProjectResponse));
    assert_eq!(delete_project(true), (true, Message::DeleteProjectResponse { success: true }));
    assert_eq!(delete_project(false), (false, Message::DeleteProjectResponse { success: false }));
}

#[test]
fn list_strips_the_extension() {
    let names = vec![s("web.toml"), s("db.toml"), s("ünï.toml")];
    assert_eq!(list_projects(&names), Message::ListProjectsResponse { projects: vec![s("web"), s("db"), s("ünï")] });
    assert_eq!(list_projects(&Vec::new()), Message::ListProjectsResponse { projects: Vec::new() });
}

#[test]
fn list_shows_what_new_wrote() {
    for name in ["web", "ünï", ""] {
        let p = Project { name: s(name), path: s("."), command: s("true") };
        let (path, _) = new_project("/cfg", &p);
        let file = std::path::Path::new(&path).file_name().unwrap().to_str().unwrap().to_string();
        assert_eq!(list_projects(&vec![file]), Message::ListProjectsResponse { projects: vec![s(name)] });
    }
}

#[test]
fn start_refuses_running_project() {
    let t = table();
    assert_eq!(start_project(&t, "/cfg", &s("web")), None);
    assert_eq!(start_project(&t, "/cfg", &s("api")), Some(s("/cfg/api.toml")));
    assert_eq!(start_refused(), Message::StartProjectResponse { success: false });
}

#[test]
fn launch_plan() {
    let l = launch("/cfg", &web(), "2024-05-06 07:08:09+02:00\n");
    assert_eq!(l.log_file, "/cfg/logs/web_2024-05-06_07:08:09+02:00.log");
    assert_eq!(l.args, vec![s("-qe"), s("-c"), s("npm start"), s("/cfg/logs/web_2024-05-06_07:08:09+02:00.log")]);
    assert_eq!(l.cwd, "/srv/web");
}

#[test]
fn started_project_is_kept() {
    let mut t = table();
    let reply = started(&mut t, s("api"), 99, s("/cfg/logs/api.log"));
    assert_eq!(reply, Message::StartProjectResponse { success: true });
    assert_eq!(t.get(&s("api")).map(|p| p.pid), Some(99));
    assert_eq!(t.len(), 3);
    started(&mut t, s("web"), 100, s("/cfg/logs/web2.log"));
    assert_eq!(t.len(), 3);
    assert_eq!(t.get(&s("web")).map(|p| p.pid), Some(100));
}

#[test]
fn attach_session_daemon_side() {
    let t = table();
    assert_eq!(attach_project(&t, &s("web")), Message::AttachProjectResponse { success: true });
    assert_eq!(attach_project(&t, &s("x")), Message::AttachProjectResponse { success: false });
    assert_eq!(attach_turn(false, Some(vec![1])), AttachTurn::Detach(Message::Detach));
    assert_eq!(attach_turn(true, Some(vec![1, 2])), AttachTurn::Send(Message::AttachData { data: vec![1, 2] }));
    assert_eq!(attach_turn(true, None), AttachTurn::Send(Message::Poll));
    assert_eq!(attach_answer(Message::Poll), Ok(None));
    assert_eq!(attach_answer(Message::AttachData { data: vec![9] }), Ok(Some(vec![9])));
    assert_eq!(attach_answer(Message::Detach), Err(DaemonError::UnknownMessage));
}

#[test]
fn client_understands_daemon_replies() {
    let t = table();
    assert_eq!(stop_outcome(stop_project(&t, &s("web")).1), Ok("stopped?"));
    assert_eq!(start_outcome(start_refused()), Ok("failed to start"));
    assert_eq!(delete_outcome(delete_project(false).1), Ok("Project does not exist?"));
    assert_eq!(attach_outcome(attach_project(&t, &s("db"))), Ok(true));
    assert_eq!(list_outcome(list_projects(&vec![s("a.toml")])), Ok(vec![s("1. a")]));
    assert_eq!(daemon_status_outcome(send_daemon_status("/cfg")), Ok(s("configs dir: /cfg")));
}

#[test]
fn kill_reply_is_a_stop_response() {
    let t = table();
    assert_eq!(kill_outcome(kill_project(&t, &s("web")).1), Err(ClientError::UnknownMessage));
}

#[test]
fn listing_names_exactly_the_config_files() {
    let files = vec![s("web.toml"), s("db.toml")];
    let listed = match list_projects(&files) {
        Message::ListProjectsResponse { projects } => projects,
        _ => unreachable!(),
    };
    assert!(listed.contains(&s("web")));
    assert!(!listed.contains(&s("api")));
    let files = vec![s("db.toml")];
    let listed = match list_projects(&files) {
        Message::ListProjectsResponse { projects } => projects,
        _ => unreachable!(),
    };
    assert!(!listed.contains(&s("web")));
}
