use vstd::prelude::*;
use crate::data::{Message, Project};
use crate::paths::{join, joined};
use crate::procs::{has_name, lookup, Proc, ProcTable};
use crate::text::{
    can_drop_last_bytes, concat, decimal, owned, spaces_to_underscores, to_decimal, trim,
    trimmed, underscore_spaces, views, without_last_bytes, drop_last_bytes, lemma_encode_utf8_concat,
};
use vstd::utf8::{
    encode_utf8, encode_utf8_decode_utf8, encode_utf8_valid_utf8, is_ascii_chars,
    is_ascii_chars_encode_utf8, is_char_boundary_iff_not_is_continuation_byte,
};

verus! {

/// A request that the daemon serves.
#[allow(inconsistent_fields)]
#[derive(Debug, Clone, PartialEq, Eq)]
pub enum Request {
    StopDaemon { force: bool },
    Status,
    New { project: Project },
    List,
    Delete { project: String },
    Start { project: String },
    Attach { project: String },
    Stop { project: String },
    Kill { project: String },
}

/// Why the daemon gives up on a connection.
#[derive(Debug, PartialEq, Eq, Structural)]
pub enum DaemonError {
    /// The peer sent a message that is not expected at this point.
    UnknownMessage,
}

impl DaemonError {
    /// The text that reports this error.
    pub fn describe(&self) -> (s: &'static str)
        ensures
            s@ == "unknown message"@,
    {
        "unknown message"
    }
}

/// The request that `msg` makes of the daemon; any other message ends the
/// connection with an error.
pub fn handle_message(msg: Message) -> (r: Result<Request, DaemonError>)
    ensures
        match msg {
            Message::StopDaemon { force } => r == Ok::<Request, DaemonError>(Request::StopDaemon { force }),
            Message::DaemonStatusRequest => r == Ok::<Request, DaemonError>(Request::Status),
            Message::NewProjectRequest { project } => r == Ok::<Request, DaemonError>(Request::New { project }),
            Message::ListProjectsRequest => r == Ok::<Request, DaemonError>(Request::List),
            Message::DeleteProjectRequest { project } => r == Ok::<Request, DaemonError>(Request::Delete { project }),
            Message::StartProjectRequest { project } => r == Ok::<Request, DaemonError>(Request::Start { project }),
            Message::AttachProjectRequest { project } => r == Ok::<Request, DaemonError>(Request::Attach { project }),
            Message::StopProjectRequest { project } => r == Ok::<Request, DaemonError>(Request::Stop { project }),
            Message::KillProjectRequest { project } => r == Ok::<Request, DaemonError>(Request::Kill { project }),
            _ => r == Err::<Request, DaemonError>(DaemonError::UnknownMessage),
        },
{
    match msg {
        Message::StopDaemon { force } => Ok(Request::StopDaemon { force }),
        Message::DaemonStatusRequest => Ok(Request::Status),
        Message::NewProjectRequest { project } => Ok(Request::New { project }),
        Message::ListProjectsRequest => Ok(Request::List),
        Message::DeleteProjectRequest { project } => Ok(Request::Delete { project }),
        Message::StartProjectRequest { project } => Ok(Request::Start { project }),
        Message::AttachProjectRequest { project } => Ok(Request::Attach { project }),
        Message::StopProjectRequest { project } => Ok(Request::Stop { project }),
        Message::KillProjectRequest { project } => Ok(Request::Kill { project }),
        _ => Err(DaemonError::UnknownMessage),
    }
}

/// The file that holds the configuration of the project `name`.
pub open spec fn config_file(configs_dir: Seq<char>, name: Seq<char>) -> Seq<char> {
    joined(configs_dir, name + ".toml"@)
}

/// The directory that the logs of the projects go to.
pub open spec fn logs_dir_of(configs_dir: Seq<char>) -> Seq<char> {
    joined(configs_dir, "logs"@)
}

/// The log file of a run of project `name` started at `date`.
pub open spec fn log_file_of(logs_dir: Seq<char>, name: Seq<char>, date: Seq<char>) -> Seq<char> {
    joined(logs_dir, name + "_"@ + date + ".log"@)
}

/// The arguments of `kill` that end process `pid`: with `-9` when forced.
pub open spec fn kill_args_of(pid: u32, force: bool) -> Seq<Seq<char>> {
    if force {
        seq!["-9"@, decimal(pid as nat)]
    } else {
        seq![decimal(pid as nat)]
    }
}

/// The arguments of `script` that run `command` and log its terminal to `log_file`.
pub open spec fn script_args_of(command: Seq<char>, log_file: Seq<char>) -> Seq<Seq<char>> {
    seq!["-qe"@, "-c"@, command, log_file]
}

/// The file that holds the configuration of the project `name`.
pub fn config_path(configs_dir: &str, name: &str) -> (r: String)
    ensures
        r@ == config_file(configs_dir@, name@),
{
    let file = concat(name, ".toml");
    join(configs_dir, file.as_str())
}

/// The directory that the logs of the projects go to.
pub fn logs_dir(configs_dir: &str) -> (r: String)
    ensures
        r@ == logs_dir_of(configs_dir@),
{
    join(configs_dir, "logs")
}

/// The time stamp made from the output of `date --rfc-3339=second`: trimmed,
/// with spaces turned into underscores.
pub fn date(output: &str) -> (r: String)
    ensures
        r@ == spaces_to_underscores(trimmed(output@)),
{
    let t = trim(output);
    underscore_spaces(t.as_str())
}

/// The arguments of `kill` that end process `pid`: with `-9` when forced.
pub fn kill_args(pid: u32, force: bool) -> (r: Vec<String>)
    ensures
        views(r@) == kill_args_of(pid, force),
{
    let mut r: Vec<String> = Vec::new();
    if force {
        r.push(owned("-9"));
    }
    r.push(to_decimal(pid as u64));
    assert(views(r@) =~= kill_args_of(pid, force));
    r
}

/// What stopping the daemon does: the reply, then a `kill` of every process
/// the daemon keeps, in the table's order.
pub fn stop_daemon(procs: &ProcTable, force: bool) -> (r: (Message, Vec<Vec<String>>))
    ensures
        r.0 is Empty,
        r.1@.len() == procs@.len(),
        forall|i: int| 0 <= i < procs@.len() ==> views(#[trigger] r.1@[i]@) == kill_args_of(procs@[i].pid, force),
{
    let mut kills: Vec<Vec<String>> = Vec::new();
    let n = procs.len();
    let mut k: usize = 0;
    while k < n
        invariant
            0 <= k <= n == procs@.len(),
            kills@.len() == k,
            forall|i: int| 0 <= i < k ==> views(#[trigger] kills@[i]@) == kill_args_of(procs@[i].pid, force),
        decreases n - k,
    {
        let p = procs.at(k);
        kills.push(kill_args(p.pid, force));
        k += 1;
    }
    (Message::Empty, kills)
}

/// What `stop` does to project `name`: a `kill` of its process and a
/// successful reply when the daemon keeps one, else only a failed reply.
pub fn stop_project(procs: &ProcTable, name: &String) -> (r: (Option<Vec<String>>, Message))
    ensures
        match lookup(procs@, name@) {
            Some(p) => r.0 matches Some(args) && views(args@) == kill_args_of(p.pid, false),
            None => r.0 is None,
        },
        r.1 matches Message::StopProjectResponse { success } && success == has_name(procs@, name@),
{
    match procs.get(name) {
        Some(p) => (Some(kill_args(p.pid, false)), Message::StopProjectResponse { success: true }),
        None => (None, Message::StopProjectResponse { success: false }),
    }
}

/// What `kill` does to project `name`: a `kill -9` of its process and a
/// successful reply when the daemon keeps one, else only a failed reply.
/// The reply is a `StopProjectResponse`, as for `stop`.
pub fn kill_project(procs: &ProcTable, name: &String) -> (r: (Option<Vec<String>>, Message))
    ensures
        match lookup(procs@, name@) {
            Some(p) => r.0 matches Some(args) && views(args@) == kill_args_of(p.pid, true),
            None => r.0 is None,
        },
        r.1 matches Message::StopProjectResponse { success } && success == has_name(procs@, name@),
{
    match procs.get(name) {
        Some(p) => (Some(kill_args(p.pid, true)), Message::StopProjectResponse { success: true }),
        None => (None, Message::StopProjectResponse { success: false }),
    }
}

/// The reply to a status request: the directory of the configurations.
pub fn send_daemon_status(configs_dir: &str) -> (r: Message)
    ensures
        r matches Message::DaemonStatusResponse { config_dir } && config_dir@ == configs_dir@,
{
    Message::DaemonStatusResponse { config_dir: owned(configs_dir) }
}

/// Where `new` writes the configuration of `project`, and the reply.
pub fn new_project(configs_dir: &str, project: &Project) -> (r: (String, Message))
    ensures
        r.0@ == config_file(configs_dir@, project.name@),
        r.1 is NewProjectResponse,
{
    (config_path(configs_dir, project.name.as_str()), Message::NewProjectResponse)
}

/// Whether a file name can be turned into a project name, that is, whether
/// the cut of its last five bytes falls between characters.
pub open spec fn listable(file_name: Seq<char>) -> bool {
    can_drop_last_bytes(file_name, 5) && encode_utf8(file_name).len() <= usize::MAX
}

/// The reply to `list`: the names of the configuration files, each without
/// its last five bytes (the `.toml`).
pub fn list_projects(file_names: &Vec<String>) -> (r: Message)
    requires
        forall|i: int| 0 <= i < file_names@.len() ==> listable(#[trigger] file_names@[i]@),
    ensures
        r matches Message::ListProjectsResponse { projects } && projects@.len() == file_names@.len()
            && forall|i: int| 0 <= i < file_names@.len() ==> #[trigger] projects@[i]@ == without_last_bytes(file_names@[i]@, 5),
{
    let mut projects: Vec<String> = Vec::new();
    let mut k: usize = 0;
    while k < file_names.len()
        invariant
            0 <= k <= file_names@.len(),
            forall|i: int| 0 <= i < file_names@.len() ==> listable(#[trigger] file_names@[i]@),
            projects@.len() == k,
            forall|i: int| 0 <= i < k ==> #[trigger] projects@[i]@ == without_last_bytes(file_names@[i]@, 5),
        decreases file_names@.len() - k,
    {
        assert(listable(file_names@[k as int]@));
        projects.push(drop_last_bytes(file_names[k].as_str(), 5));
        k += 1;
    }
    Message::ListProjectsResponse { projects }
}

/// What `delete` does once it knows whether the configuration file exists:
/// remove it and reply success, or reply failure when there is none.
pub fn delete_project(config_exists: bool) -> (r: (bool, Message))
    ensures
        r.0 == config_exists,
        r.1 matches Message::DeleteProjectResponse { success } && success == config_exists,
{
    (config_exists, Message::DeleteProjectResponse { success: config_exists })
}

/// The first decision of `start`: a project that already runs is refused
/// (`None`); otherwise its configuration file is to be read.
pub fn start_project(procs: &ProcTable, configs_dir: &str, name: &String) -> (r: Option<String>)
    ensures
        match r {
            Some(path) => !has_name(procs@, name@) && path@ == config_file(configs_dir@, name@),
            None => has_name(procs@, name@),
        },
{
    if procs.contains(name) {
        None
    } else {
        Some(config_path(configs_dir, name.as_str()))
    }
}

/// How a project is launched.
#[derive(Debug, Clone, PartialEq, Eq)]
pub struct Launch {
    /// The file its terminal is logged to.
    pub log_file: String,
    /// The arguments of `script`, which runs the command.
    pub args: Vec<String>,
    /// The directory the command runs in.
    pub cwd: String,
}

/// How `project` is launched, at the time stamp made of `date_output`.
pub fn launch(configs_dir: &str, project: &Project, date_output: &str) -> (r: Launch)
    ensures
        r.log_file@ == log_file_of(
            logs_dir_of(configs_dir@),
            project.name@,
            spaces_to_underscores(trimmed(date_output@)),
        ),
        views(r.args@) == script_args_of(project.command@, r.log_file@),
        r.cwd@ == project.path@,
{
    let stamp = date(date_output);
    let dir = logs_dir(configs_dir);
    let a = concat(project.name.as_str(), "_");
    let b = concat(a.as_str(), stamp.as_str());
    let file = concat(b.as_str(), ".log");
    let log_file = join(dir.as_str(), file.as_str());
    let mut args: Vec<String> = Vec::new();
    args.push(owned("-qe"));
    args.push(owned("-c"));
    args.push(project.command.clone());
    args.push(log_file.clone());
    assert(views(args@) =~= script_args_of(project.command@, log_file@));
    Launch { log_file, args, cwd: project.path.clone() }
}

/// Records a launched project under its name (replacing any process kept
/// under that name) and gives the reply.
pub fn started(procs: &mut ProcTable, name: String, pid: u32, log_file: String) -> (r: Message)
    ensures
        final(procs)@ == crate::procs::upsert(old(procs)@, crate::procs::ProcView { name: name@, pid, log_file: log_file@ }),
        r matches Message::StartProjectResponse { success } && success,
{
    procs.insert(Proc { name, pid, log_file });
    Message::StartProjectResponse { success: true }
}

/// The reply of `start` when the configuration file does not exist.
pub fn start_refused() -> (r: Message)
    ensures
        r matches Message::StartProjectResponse { success } && !success,
{
    Message::StartProjectResponse { success: false }
}

/// The first reply of `attach`: whether the daemon keeps a process for `name`.
pub fn attach_project(procs: &ProcTable, name: &String) -> (r: Message)
    ensures
        r matches Message::AttachProjectResponse { success } && success == has_name(procs@, name@),
{
    Message::AttachProjectResponse { success: procs.contains(name) }
}

/// One turn of the daemon's side of an attached session.
#[derive(Debug, Clone, PartialEq, Eq)]
pub enum AttachTurn {
    /// The process ended: forget it and send this message, which ends the session.
    Detach(Message),
    /// Send this message and wait for the client's answer.
    Send(Message),
}

/// The daemon's turn: `Detach` when the process no longer runs; else the
/// output that arrived from the process, or a `Poll` when none did.
pub fn attach_turn(alive: bool, output: Option<Vec<u8>>) -> (r: AttachTurn)
    ensures
        !alive ==> (r matches AttachTurn::Detach(m) && m is Detach),
        alive ==> match output {
            Some(data) => (r matches AttachTurn::Send(m) && (m matches Message::AttachData { data: d } && d == data)),
            None => (r matches AttachTurn::Send(m) && m is Poll),
        },
{
    if !alive {
        AttachTurn::Detach(Message::Detach)
    } else {
        match output {
            Some(data) => AttachTurn::Send(Message::AttachData { data }),
            None => AttachTurn::Send(Message::Poll),
        }
    }
}

/// The client's answer in an attached session: input for the process, if
/// any; anything but `Poll` or `AttachData` ends the session with an error.
pub fn attach_answer(msg: Message) -> (r: Result<Option<Vec<u8>>, DaemonError>)
    ensures
        match msg {
            Message::Poll => r == Ok::<Option<Vec<u8>>, DaemonError>(None),
            Message::AttachData { data } => r == Ok::<Option<Vec<u8>>, DaemonError>(Some(data)),
            _ => r == Err::<Option<Vec<u8>>, DaemonError>(DaemonError::UnknownMessage),
        },
{
    match msg {
        Message::Poll => Ok(None),
        Message::AttachData { data } => Ok(Some(data)),
        _ => Err(DaemonError::UnknownMessage),
    }
}

/// What `new` writes, `list` shows: the file name that `new` gives the
/// configuration of project `name` passes the listing's cut of five bytes,
/// and the cut gives `name` back.
pub proof fn law_list_shows_new(name: Seq<char>)
    requires
        encode_utf8(name).len() + 5 <= usize::MAX,
    ensures
        listable(name + ".toml"@),
        without_last_bytes(name + ".toml"@, 5) == name,
{
    let ext = ".toml"@;
    reveal_strlit(".toml");
    assert(ext =~= seq!['.', 't', 'o', 'm', 'l']);
    assert(is_ascii_chars(ext));
    is_ascii_chars_encode_utf8(ext);
    lemma_encode_utf8_concat(name, ext);
    let bytes = encode_utf8(name + ext);
    let cut = encode_utf8(name).len() as int;
    assert(bytes.len() == cut + 5);
    encode_utf8_valid_utf8(name + ext);
    assert(bytes[cut] == encode_utf8(ext)[0]);
    assert(encode_utf8(ext)[0] == ext[0] as u8);
    is_char_boundary_iff_not_is_continuation_byte(bytes, cut);
    assert(bytes.subrange(0, cut) =~= encode_utf8(name));
    encode_utf8_decode_utf8(name);
}

/// The UTF-8 encoding of `name.toml` is five bytes longer than that of `name`.
proof fn lemma_toml_file_len(name: Seq<char>)
    ensures
        encode_utf8(name + ".toml"@).len() == encode_utf8(name).len() + 5,
{
    let ext = ".toml"@;
    reveal_strlit(".toml");
    assert(ext =~= seq!['.', 't', 'o', 'm', 'l']);
    assert(is_ascii_chars(ext));
    is_ascii_chars_encode_utf8(ext);
    lemma_encode_utf8_concat(name, ext);
}

/// The listing names a project exactly when its configuration file is in
/// the directory: when every file there is some `x.toml`, the names that
/// `list` shows include `name` if, and only if, `name.toml` is one of them.
pub proof fn law_list_iff_config_file(files: Seq<Seq<char>>, name: Seq<char>)
    requires
        forall|i: int| 0 <= i < files.len() ==> #[trigger] files[i].len() >= 5 && files[i].skip(
            files[i].len() - 5,
        ) == ".toml"@,
        forall|i: int| 0 <= i < files.len() ==> encode_utf8(#[trigger] files[i]).len() <= usize::MAX,
        encode_utf8(name).len() + 5 <= usize::MAX,
    ensures
        forall|i: int| 0 <= i < files.len() ==> listable(#[trigger] files[i]),
        (exists|i: int| 0 <= i < files.len() && without_last_bytes(#[trigger] files[i], 5) == name)
            == files.contains(name + ".toml"@),
{
    assert forall|i: int| 0 <= i < files.len() implies listable(#[trigger] files[i]) && (
    without_last_bytes(files[i], 5) == name <==> files[i] == name + ".toml"@) by {
        let f = files[i];
        let y = f.take(f.len() - 5);
        assert(f =~= y + ".toml"@);
        lemma_toml_file_len(y);
        law_list_shows_new(y);
        if f == name + ".toml"@ {
            assert(y =~= name) by {
                assert((name + ".toml"@).take(f.len() - 5) =~= name);
            }
        }
    }
    if files.contains(name + ".toml"@) {
        let i = choose|i: int| 0 <= i < files.len() && files[i] == name + ".toml"@;
        assert(without_last_bytes(files[i], 5) == name);
    }
}

/// The configuration of project `name` (a name without `/`) is the file
/// `name.toml` directly in the configurations directory: its path is the
/// directory, up to and with a `/`, then the name, then `.toml`; and the
/// listing's cut of five bytes turns that file name back into `name`.
pub proof fn law_config_file_name(configs_dir: Seq<char>, name: Seq<char>)
    requires
        forall|i: int| 0 <= i < name.len() ==> name[i] != '/',
        encode_utf8(name).len() + 5 <= usize::MAX,
    ensures
        exists|dir: Seq<char>| (dir.len() == 0 || dir.last() == '/') && (dir.len() == 0 || dir == configs_dir || dir == configs_dir + seq!['/'])
            && config_file(configs_dir, name) == dir + name + ".toml"@,
        listable(name + ".toml"@),
        without_last_bytes(name + ".toml"@, 5) == name,
{
    let ext = ".toml"@;
    reveal_strlit(".toml");
    assert(ext =~= seq!['.', 't', 'o', 'm', 'l']);
    let file = name + ext;
    assert(!crate::paths::is_absolute(file)) by {
        if name.len() > 0 {
            assert(file[0] == name[0]);
        } else {
            assert(file[0] == '.');
        }
    }
    if configs_dir.len() > 0 && configs_dir.last() != '/' {
        let dir = configs_dir + seq!['/'];
        assert(dir.last() == '/');
        assert(config_file(configs_dir, name) =~= dir + name + ext);
    } else {
        assert(config_file(configs_dir, name) =~= configs_dir + name + ext);
    }
    law_list_shows_new(name);
}

} // verus!
