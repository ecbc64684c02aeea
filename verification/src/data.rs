use vstd::prelude::*;

verus! {

/// A project: a command to run in a directory, under a name.
#[derive(Debug, Clone, PartialEq, Eq)]
pub struct Project {
    pub name: String,
    /// The directory the command runs in.
    pub path: String,
    pub command: String,
}

/// The messages that the client and the daemon exchange. Requests go from
/// the client to the daemon, responses back; `Poll`, `AttachData` and
/// `Detach` travel both ways while a client is attached to a project.
#[allow(inconsistent_fields)]
#[derive(Debug, Clone, PartialEq, Eq)]
pub enum Message {
    Empty,
    Poll,
    StopDaemon { force: bool },
    DaemonStatusRequest,
    DaemonStatusResponse { config_dir: String },
    NewProjectRequest { project: Project },
    NewProjectResponse,
    ListProjectsRequest,
    ListProjectsResponse { projects: Vec<String> },
    StartProjectRequest { project: String },
    StartProjectResponse { success: bool },
    DeleteProjectRequest { project: String },
    DeleteProjectResponse { success: bool },
    AttachProjectRequest { project: String },
    AttachProjectResponse { success: bool },
    AttachData { data: Vec<u8> },
    Detach,
    StopProjectRequest { project: String },
    StopProjectResponse { success: bool },
    KillProjectRequest { project: String },
    KillProjectResponse { success: bool },
}

} // verus!
