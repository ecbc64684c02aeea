use vstd::prelude::*;

verus! {

/// The command line: one subcommand.
#[derive(Debug, Clone, PartialEq, Eq)]
pub struct Cli {
    pub command: Commands,
}

/// The subcommands of the client.
#[derive(Debug, Clone, PartialEq, Eq)]
pub enum Commands {
    Daemon(Daemon),
    New(New),
    List(List),
    Delete(Delete),
    Start(Start),
    Attach(Attach),
    Stop(Stop),
    Kill(Kill),
}

/// `daemon`: manage the daemon.
#[derive(Debug, Clone, PartialEq, Eq)]
pub struct Daemon {
    pub command: DaemonCommands,
}

/// The subcommands of `daemon`.
#[allow(inconsistent_fields)]
#[derive(Debug, Clone, PartialEq, Eq)]
pub enum DaemonCommands {
    /// Start the daemon, keeping project configurations in `configs_dir`.
    Start { configs_dir: Option<String> },
    Status,
    Kill,
    Stop { force: bool },
    /// Run as the daemon itself; what `Start` launches in the background.
    StartMain { configs_dir: String },
}

/// `new`: create a project; what is not given is asked for.
#[derive(Debug, Clone, PartialEq, Eq)]
pub struct New {
    pub name: Option<String>,
    pub path: Option<String>,
    pub command: Option<String>,
}

/// `list`: list the projects.
#[derive(Debug, Clone, PartialEq, Eq)]
pub struct List {}

/// `delete`: delete a project's configuration.
#[derive(Debug, Clone, PartialEq, Eq)]
pub struct Delete {
    pub project: String,
}

/// `start`: start a project.
#[derive(Debug, Clone, PartialEq, Eq)]
pub struct Start {
    pub project: String,
}

/// `attach`: attach the terminal to a running project.
#[derive(Debug, Clone, PartialEq, Eq)]
pub struct Attach {
    pub project: String,
}

/// `stop`: stop a running project.
#[derive(Debug, Clone, PartialEq, Eq)]
pub struct Stop {
    pub project: String,
}

/// `kill`: kill a running project.
#[derive(Debug, Clone, PartialEq, Eq)]
pub struct Kill {
    pub project: String,
}

} // verus!
