use vstd::prelude::*;
use crate::cli::{Daemon, DaemonCommands};
use crate::data::Message;
use crate::paths::{join, joined};
use crate::text::{concat, decimal, owned, to_decimal, trim, trimmed, views};

verus! {

/// Why a client command fails.
#[derive(Debug, PartialEq, Eq, Structural)]
pub enum ClientError {
    /// The daemon answered with a message that does not fit the request.
    UnknownMessage,
    /// No configuration directory was given and `HOME` is not set.
    NoHome,
}

impl ClientError {
    /// The text that reports this error.
    pub fn describe(&self) -> (s: &'static str)
        ensures
            *self == ClientError::UnknownMessage ==> s@ == "unknown message"@,
            *self == ClientError::NoHome ==> s@ == "cannot find home, please specify configs dir"@,
    {
        match self {
            ClientError::UnknownMessage => "unknown message",
            ClientError::NoHome => "cannot find home, please specify configs dir",
        }
    }
}

/// What `daemon` does.
#[derive(Debug, Clone, PartialEq, Eq)]
pub enum DaemonTask {
    /// Start the daemon in the background.
    Start { configs_dir: Option<String> },
    /// Report whether the daemon runs and where its configurations are.
    Status,
    /// Kill the daemon's processes.
    Kill,
    /// Ask the daemon to stop.
    Stop { force: bool },
}

/// The task of a `daemon` subcommand. `start-main` is not one: it runs the
/// daemon itself and is dispatched before this.
pub fn daemon(cmd: Daemon) -> (r: DaemonTask)
    requires
        !(cmd.command is StartMain),
    ensures
        match cmd.command {
            DaemonCommands::Start { configs_dir } => r == DaemonTask::Start { configs_dir },
            DaemonCommands::Status => r is Status,
            DaemonCommands::Kill => r is Kill,
            DaemonCommands::Stop { force } => r == DaemonTask::Stop { force },
            DaemonCommands::StartMain { .. } => false,
        },
{
    match cmd.command {
        DaemonCommands::Start { configs_dir } => DaemonTask::Start { configs_dir },
        DaemonCommands::Status => DaemonTask::Status,
        DaemonCommands::Kill => DaemonTask::Kill,
        DaemonCommands::Stop { force } => DaemonTask::Stop { force },
        DaemonCommands::StartMain { .. } => {
            assert(false);
            DaemonTask::Status
        },
    }
}

/// The directory that `daemon start` keeps the configurations in: the one
/// given, else `.projects-rs` in the home directory.
pub fn resolve_configs_dir(configs_dir: Option<String>, home: Option<String>) -> (r: Result<String, ClientError>)
    ensures
        match configs_dir {
            Some(d) => r == Ok::<String, ClientError>(d),
            None => match home {
                Some(h) => r matches Ok(d) && d@ == joined(h@, ".projects-rs"@),
                None => r == Err::<String, ClientError>(ClientError::NoHome),
            },
        },
{
    match configs_dir {
        Some(d) => Ok(d),
        None => match home {
            Some(h) => Ok(join(h.as_str(), ".projects-rs")),
            None => Err(ClientError::NoHome),
        },
    }
}

/// The arguments with which the program runs itself as the daemon.
pub fn start_main_args(configs_dir: &str) -> (r: Vec<String>)
    ensures
        views(r@) == seq!["daemon"@, "start-main"@, configs_dir@],
{
    let mut r: Vec<String> = Vec::new();
    r.push(owned("daemon"));
    r.push(owned("start-main"));
    r.push(owned(configs_dir));
    assert(views(r@) =~= seq!["daemon"@, "start-main"@, configs_dir@]);
    r
}

/// The line that `daemon status` prints for the daemon's answer.
pub fn daemon_status_outcome(msg: Message) -> (r: Result<String, ClientError>)
    ensures
        match msg {
            Message::DaemonStatusResponse { config_dir } => r matches Ok(line) && line@ == "configs dir: "@ + config_dir@,
            _ => r == Err::<String, ClientError>(ClientError::UnknownMessage),
        },
{
    match msg {
        Message::DaemonStatusResponse { config_dir } => Ok(concat("configs dir: ", config_dir.as_str())),
        _ => Err(ClientError::UnknownMessage),
    }
}

/// The commands that `daemon kill` runs: `kill -9` of every other process
/// of this program; `None` when there is none (the daemon does not run).
pub fn kill_daemon(pids: &Vec<String>) -> (r: Option<Vec<Vec<String>>>)
    ensures
        pids@.len() == 0 ==> r is None,
        pids@.len() > 0 ==> (r matches Some(cmds) && cmds@.len() == pids@.len()
            && forall|i: int| 0 <= i < pids@.len() ==> views(#[trigger] cmds@[i]@) == seq!["kill"@, "-9"@, pids@[i]@]),
{
    if pids.len() == 0 {
        return None;
    }
    let mut cmds: Vec<Vec<String>> = Vec::new();
    let mut k: usize = 0;
    while k < pids.len()
        invariant
            0 <= k <= pids@.len(),
            cmds@.len() == k,
            forall|i: int| 0 <= i < k ==> views(#[trigger] cmds@[i]@) == seq!["kill"@, "-9"@, pids@[i]@],
        decreases pids@.len() - k,
    {
        let mut c: Vec<String> = Vec::new();
        c.push(owned("kill"));
        c.push(owned("-9"));
        c.push(pids[k].clone());
        assert(views(c@) =~= seq!["kill"@, "-9"@, pids@[k as int]@]);
        cmds.push(c);
        k += 1;
    }
    Some(cmds)
}

/// The line that `delete` prints for the daemon's answer.
pub fn delete_outcome(msg: Message) -> (r: Result<&'static str, ClientError>)
    ensures
        match msg {
            Message::DeleteProjectResponse { success } => r matches Ok(line) && line@ == (if success {
                "Project deleted"@
            } else {
                "Project does not exist?"@
            }),
            _ => r == Err::<&'static str, ClientError>(ClientError::UnknownMessage),
        },
{
    match msg {
        Message::DeleteProjectResponse { success } => Ok(if success {
            "Project deleted"
        } else {
            "Project does not exist?"
        }),
        _ => Err(ClientError::UnknownMessage),
    }
}

/// The line that `kill` prints for the daemon's answer.
pub fn kill_outcome(msg: Message) -> (r: Result<&'static str, ClientError>)
    ensures
        match msg {
            Message::KillProjectResponse { success } => r matches Ok(line) && line@ == (if success {
                "killed (probably)"@
            } else {
                "not killed?!"@
            }),
            _ => r == Err::<&'static str, ClientError>(ClientError::UnknownMessage),
        },
{
    match msg {
        Message::KillProjectResponse { success } => Ok(if success {
            "killed (probably)"
        } else {
            "not killed?!"
        }),
        _ => Err(ClientError::UnknownMessage),
    }
}

/// The line that `start` prints for the daemon's answer.
pub fn start_outcome(msg: Message) -> (r: Result<&'static str, ClientError>)
    ensures
        match msg {
            Message::StartProjectResponse { success } => r matches Ok(line) && line@ == (if success {
                "started"@
            } else {
                "failed to start"@
            }),
            _ => r == Err::<&'static str, ClientError>(ClientError::UnknownMessage),
        },
{
    match msg {
        Message::StartProjectResponse { success } => Ok(if success {
            "started"
        } else {
            "failed to start"
        }),
        _ => Err(ClientError::UnknownMessage),
    }
}

/// The line that `stop` prints for the daemon's answer.
pub fn stop_outcome(msg: Message) -> (r: Result<&'static str, ClientError>)
    ensures
        match msg {
            Message::StopProjectResponse { success } => r matches Ok(line) && line@ == (if success {
                "stopped?"@
            } else {
                "failed to stop"@
            }),
            _ => r == Err::<&'static str, ClientError>(ClientError::UnknownMessage),
        },
{
    match msg {
        Message::StopProjectResponse { success } => Ok(if success {
            "stopped?"
        } else {
            "failed to stop"
        }),
        _ => Err(ClientError::UnknownMessage),
    }
}

/// Line `i` (from 0) of the listing: its number from 1, a dot and the name.
pub open spec fn list_line(i: nat, name: Seq<char>) -> Seq<char> {
    decimal(i + 1) + ". "@ + name
}

/// The lines that `list` prints for the daemon's answer.
pub fn list_outcome(msg: Message) -> (r: Result<Vec<String>, ClientError>)
    ensures
        match msg {
            Message::ListProjectsResponse { projects } => r matches Ok(lines) && lines@.len()
                == projects@.len() && forall|i: int| 0 <= i < projects@.len() ==> #[trigger] lines@[i]@
                == list_line(i as nat, projects@[i]@),
            _ => r == Err::<Vec<String>, ClientError>(ClientError::UnknownMessage),
        },
{
    match msg {
        Message::ListProjectsResponse { projects } => {
            let mut lines: Vec<String> = Vec::new();
            let mut k: usize = 0;
            while k < projects.len()
                invariant
                    0 <= k <= projects@.len(),
                    lines@.len() == k,
                    forall|i: int| 0 <= i < k ==> #[trigger] lines@[i]@ == list_line(i as nat, projects@[i]@),
                decreases projects@.len() - k,
            {
                let number = to_decimal(k as u64 + 1);
                let head = concat(number.as_str(), ". ");
                lines.push(concat(head.as_str(), projects[k].as_str()));
                k += 1;
            }
            Ok(lines)
        },
        _ => Err(ClientError::UnknownMessage),
    }
}

/// Whether `attach` enters the session, for the daemon's answer (when it
/// does not, the client prints "failed to attach").
pub fn attach_outcome(msg: Message) -> (r: Result<bool, ClientError>)
    ensures
        match msg {
            Message::AttachProjectResponse { success } => r == Ok::<bool, ClientError>(success),
            _ => r == Err::<bool, ClientError>(ClientError::UnknownMessage),
        },
{
    match msg {
        Message::AttachProjectResponse { success } => Ok(success),
        _ => Err(ClientError::UnknownMessage),
    }
}

/// What the client does with a message of an attached session.
#[derive(Debug, Clone, PartialEq, Eq)]
pub enum AttachOutput {
    /// Nothing arrived; go on.
    Idle,
    /// The session is over.
    Detached,
    /// Write these bytes to the terminal.
    Show(Vec<u8>),
}

/// What the client does with the daemon's message in an attached session;
/// anything but `Poll`, `Detach` or `AttachData` is an error.
pub fn attach_output(msg: Message) -> (r: Result<AttachOutput, ClientError>)
    ensures
        match msg {
            Message::Poll => r matches Ok(o) && o is Idle,
            Message::Detach => r matches Ok(o) && o is Detached,
            Message::AttachData { data } => r matches Ok(o) && (o matches AttachOutput::Show(d) && d == data),
            _ => r == Err::<AttachOutput, ClientError>(ClientError::UnknownMessage),
        },
{
    match msg {
        Message::Poll => Ok(AttachOutput::Idle),
        Message::Detach => Ok(AttachOutput::Detached),
        Message::AttachData { data } => Ok(AttachOutput::Show(data)),
        _ => Err(ClientError::UnknownMessage),
    }
}

/// The byte that Ctrl-C sends: it ends an attached session.
pub open spec fn detach_key() -> u8 {
    3
}

/// Whether `i` is the position of the first `b` in `s`.
pub open spec fn is_first_index(s: Seq<u8>, b: u8, i: int) -> bool {
    0 <= i < s.len() && s[i] == b && forall|j: int| 0 <= j < i ==> s[j] != b
}

/// The position of the first `b` in `s`, if there is one.
pub open spec fn first_index_of(s: Seq<u8>, b: u8) -> Option<int> {
    if exists|i: int| is_first_index(s, b, i) {
        Some(choose|i: int| is_first_index(s, b, i))
    } else {
        None
    }
}

/// Where `b` occurs at `i`, it has a first occurrence at or before `i`.
proof fn lemma_first_occurrence(s: Seq<u8>, b: u8, i: int)
    requires
        0 <= i < s.len(),
        s[i] == b,
    ensures
        exists|k: int| k <= i && is_first_index(s, b, k),
    decreases i,
{
    if exists|j: int| 0 <= j < i && s[j] == b {
        let j = choose|j: int| 0 <= j < i && s[j] == b;
        lemma_first_occurrence(s, b, j);
    } else {
        assert(is_first_index(s, b, i));
    }
}

/// When Ctrl-C is in the input, the session ends at its first occurrence:
/// the input forwarded before `Detach` is everything before it, and holds no
/// Ctrl-C itself. When there is none, the input holds no Ctrl-C at all.
pub proof fn law_leave_at_first_detach_key(data: Seq<u8>)
    ensures
        match first_index_of(data, detach_key()) {
            Some(i) => 0 <= i < data.len() && data[i] == detach_key() && forall|j: int|
                0 <= j < data.take(i).len() ==> #[trigger] data.take(i)[j] != detach_key(),
            None => forall|j: int| 0 <= j < data.len() ==> #[trigger] data[j] != detach_key(),
        },
{
    match first_index_of(data, detach_key()) {
        Some(i) => {},
        None => {
            assert forall|j: int| 0 <= j < data.len() implies #[trigger] data[j] != detach_key() by {
                if data[j] == detach_key() {
                    lemma_first_occurrence(data, detach_key(), j);
                }
            }
        },
    }
}

/// What the client does with the terminal's input in an attached session.
#[derive(Debug, Clone, PartialEq, Eq)]
pub enum AttachInput {
    /// No input: wait a little, then send `Poll`.
    Idle,
    /// Send this input as `AttachData`.
    Forward(Vec<u8>),
    /// Ctrl-C was typed: send the input before it as `AttachData`, then
    /// `Detach`, and leave the session.
    Leave(Vec<u8>),
}

/// What the client makes of input from the terminal: nothing to send but a
/// poll when there is none; the input up to its first Ctrl-C, then leaving,
/// when it holds one; else all of it.
pub open spec fn input_step(input: Option<Vec<u8>>, r: AttachInput) -> bool {
    match input {
        None => r is Idle,
        Some(data) => match first_index_of(data@, detach_key()) {
            Some(i) => r matches AttachInput::Leave(before) && before@ == data@.take(i),
            None => r matches AttachInput::Forward(d) && d == data,
        },
    }
}

/// The messages the client sends for its input in one turn, in order.
pub open spec fn input_messages(step: AttachInput) -> Seq<Message> {
    match step {
        AttachInput::Idle => seq![Message::Poll],
        AttachInput::Forward(data) => seq![Message::AttachData { data }],
        AttachInput::Leave(before) => seq![Message::AttachData { data: before }, Message::Detach],
    }
}

impl AttachInput {
    /// The messages to send for this input, in order.
    pub fn messages(self) -> (r: Vec<Message>)
        ensures
            r@ == input_messages(self),
    {
        let mut r: Vec<Message> = Vec::new();
        match self {
            AttachInput::Idle => {
                r.push(Message::Poll);
            },
            AttachInput::Forward(data) => {
                r.push(Message::AttachData { data });
            },
            AttachInput::Leave(before) => {
                r.push(Message::AttachData { data: before });
                r.push(Message::Detach);
            },
        }
        assert(r@ =~= input_messages(self));
        r
    }

    /// Whether the session ends after this input is sent.
    pub fn ends_session(&self) -> (b: bool)
        ensures
            b == (*self is Leave),
    {
        match self {
            AttachInput::Leave(_) => true,
            _ => false,
        }
    }
}

/// Each turn of an attached client sends exactly one message: a `Poll`
/// when the terminal gave no input, else all the input as `AttachData`.
/// Only input that holds a Ctrl-C sends two, the input before the first
/// Ctrl-C (which holds none) as `AttachData` and then `Detach`, and only
/// then does the session end.
pub proof fn law_attach_turn_sends(input: Option<Vec<u8>>, r: AttachInput)
    requires
        input_step(input, r),
    ensures
        r is Leave <==> (input matches Some(data) && exists|j: int| 0 <= j < data@.len() && data@[j] == detach_key()),
        !(r is Leave) ==> input_messages(r).len() == 1,
        input is None ==> input_messages(r) == seq![Message::Poll],
        (input is Some && !(r is Leave)) ==> (input_messages(r)[0] matches Message::AttachData { data: d } && d == input->0),
        r is Leave ==> input_messages(r).len() == 2 && input_messages(r)[1] is Detach && (input_messages(r)[0] matches Message::AttachData { data: d } && (forall|j: int| 0 <= j < d@.len() ==> #[trigger] d@[j] != detach_key())),
{
    if let Some(data) = input {
        law_leave_at_first_detach_key(data@);
        match first_index_of(data@, detach_key()) {
            Some(i) => {
                assert(data@[i] == detach_key());
            },
            None => {},
        }
    }
}

/// The position of the first `b` in `data`, if there is one.
pub fn first_position(data: &Vec<u8>, b: u8) -> (r: Option<usize>)
    ensures
        match r {
            Some(k) => k < data@.len() && first_index_of(data@, b) == Some(k as int),
            None => first_index_of(data@, b) is None,
        },
{
    let mut k: usize = 0;
    while k < data.len()
        invariant
            0 <= k <= data@.len(),
            forall|j: int| 0 <= j < k ==> data@[j] != b,
        decreases data@.len() - k,
    {
        if data[k] == b {
            let ghost wit = k as int;
            assert(is_first_index(data@, b, wit));
            let ghost chosen = choose|i: int| is_first_index(data@, b, i);
            assert(chosen == wit) by {
                if chosen > wit {
                    assert(data@[wit] != b);
                }
            }
            return Some(k);
        }
        k += 1;
    }
    None
}

/// What the client does with input from the terminal in an attached session.
pub fn attach_input(input: Option<Vec<u8>>) -> (r: AttachInput)
    ensures
        input_step(input, r),
{
    match input {
        None => AttachInput::Idle,
        Some(data) => match first_position(&data, 3u8) {
            Some(k) => {
                let mut before: Vec<u8> = Vec::new();
                let mut j: usize = 0;
                while j < k
                    invariant
                        0 <= j <= k < data@.len(),
                        before@ == data@.take(j as int),
                    decreases k - j,
                {
                    before.push(data[j]);
                    assert(data@.take(j + 1) =~= data@.take(j as int).push(data@[j as int]));
                    j += 1;
                }
                AttachInput::Leave(before)
            },
            None => AttachInput::Forward(data),
        },
    }
}

/// The answer to the prompt for a project's name or command: the line
/// trimmed, or `None` (ask again) when nothing is left.
pub fn required_answer(line: &str) -> (r: Option<String>)
    ensures
        trimmed(line@).len() == 0 ==> r is None,
        trimmed(line@).len() > 0 ==> (r matches Some(a) && a@ == trimmed(line@)),
{
    let t = trim(line);
    if t.as_str().is_empty() {
        None
    } else {
        Some(t)
    }
}

/// The answer to the prompt for a project's path: the line trimmed, or the
/// current directory `.` when nothing is left.
pub fn path_answer(line: &str) -> (r: String)
    ensures
        trimmed(line@).len() == 0 ==> r@ == "."@,
        trimmed(line@).len() > 0 ==> r@ == trimmed(line@),
{
    let t = trim(line);
    if t.as_str().is_empty() {
        owned(".")
    } else {
        t
    }
}

} // verus!
