//! The values that flow between the scanner, the termination engine and the
//! foreground state.

use crate::config::Config;
use crate::services::ServiceTable;
use std::collections::HashMap;
use vstd::prelude::*;
use vstd::std_specs::cmp::PartialEqSpecImpl;

verus! {

/// One listening socket: a TCP port, the process that owns it, and that
/// process's command name. Records are ordered by port, then pid, then
/// command.
#[derive(Clone, Debug, Eq, PartialOrd, Ord, Hash)]
pub struct ProcessInfo {
    pub port: u16,
    pub pid: i32,
    pub command: String,
}

/// The mathematical content of a [`ProcessInfo`].
pub struct Listener {
    pub port: int,
    pub pid: int,
    pub command: Seq<char>,
}

impl View for ProcessInfo {
    type V = Listener;

    open spec fn view(&self) -> Listener {
        Listener { port: self.port as int, pid: self.pid as int, command: self.command@ }
    }
}

impl PartialEq for ProcessInfo {
    fn eq(&self, other: &ProcessInfo) -> (equal: bool) {
        self.port == other.port && self.pid == other.pid && self.command == other.command
    }
}

impl PartialEqSpecImpl for ProcessInfo {
    open spec fn obeys_eq_spec() -> bool {
        true
    }

    open spec fn eq_spec(&self, other: &ProcessInfo) -> bool {
        self.port == other.port && self.pid == other.pid && self.command@ == other.command@
    }
}

impl ProcessInfo {
    /// A copy of this record.
    pub fn duplicate(&self) -> (copy: ProcessInfo)
        ensures
            copy@ == self@,
    {
        ProcessInfo { port: self.port, pid: self.pid, command: self.command.clone() }
    }
}

/// The views of a list of records, in order.
pub open spec fn listeners(records: Seq<ProcessInfo>) -> Seq<Listener> {
    records.map_values(|p: ProcessInfo| p@)
}

/// A process selected for termination, with the label shown to the user.
#[derive(Clone, Debug)]
pub struct KillTarget {
    pub pid: i32,
    pub label: String,
}

/// The mathematical content of a [`KillTarget`].
pub struct Target {
    pub pid: int,
    pub label: Seq<char>,
}

impl View for KillTarget {
    type V = Target;

    open spec fn view(&self) -> Target {
        Target { pid: self.pid as int, label: self.label@ }
    }
}

/// The views of a list of targets, in order.
pub open spec fn targets(list: Seq<KillTarget>) -> Seq<Target> {
    list.map_values(|t: KillTarget| t@)
}

/// How a termination attempt ended. Every attempt ends in exactly one of
/// these.
#[derive(Clone, Copy, Debug, PartialEq, Eq, Structural)]
pub enum KillOutcome {
    Success,
    AlreadyExited,
    PermissionDenied,
    TimedOut,
    /// The platform reported an unexpected error, kept as its raw code.
    Failed(i32),
}

/// How serious a feedback message is.
#[derive(Clone, Copy, Debug, PartialEq, Eq, Structural)]
pub enum FeedbackSeverity {
    Info,
    Warning,
    Error,
}

/// A message for the user about an action that was taken.
#[derive(Clone, Debug)]
pub struct KillFeedback {
    pub message: String,
    pub severity: FeedbackSeverity,
}

/// The mathematical content of a [`KillFeedback`].
pub struct Feedback {
    pub message: Seq<char>,
    pub severity: FeedbackSeverity,
}

impl View for KillFeedback {
    type V = Feedback;

    open spec fn view(&self) -> Feedback {
        Feedback { message: self.message@, severity: self.severity }
    }
}

impl KillFeedback {
    pub fn new(message: String, severity: FeedbackSeverity) -> (feedback: KillFeedback)
        ensures
            feedback.message == message,
            feedback.severity == severity,
    {
        KillFeedback { message, severity }
    }

    pub fn info(message: String) -> (feedback: KillFeedback)
        ensures
            feedback.message == message,
            feedback.severity == FeedbackSeverity::Info,
    {
        KillFeedback::new(message, FeedbackSeverity::Info)
    }

    pub fn warning(message: String) -> (feedback: KillFeedback)
        ensures
            feedback.message == message,
            feedback.severity == FeedbackSeverity::Warning,
    {
        KillFeedback::new(message, FeedbackSeverity::Warning)
    }

    pub fn error(message: String) -> (feedback: KillFeedback)
        ensures
            feedback.message == message,
            feedback.severity == FeedbackSeverity::Error,
    {
        KillFeedback::new(message, FeedbackSeverity::Error)
    }

    /// A copy of this feedback.
    pub fn duplicate(&self) -> (copy: KillFeedback)
        ensures
            copy@ == self@,
    {
        KillFeedback { message: self.message.clone(), severity: self.severity }
    }
}

/// The operating system whose conventions apply (error codes, tools).
#[derive(Clone, Copy, Debug, PartialEq, Eq, Structural)]
pub enum Platform {
    MacOs,
    Windows,
}


/// What came of running the tool that lists listening sockets.
#[derive(Clone, Debug)]
pub enum ToolReport {
    /// The tool could not be started, for the reason given.
    NotStarted { reason: String },
    /// The tool ran and exited.
    Exited { success: bool, stdout: String, stderr: String },
}

/// A scan that failed. The caller reports it and tries again next cycle.
#[derive(Clone, Debug)]
pub struct ScanError {
    pub message: String,
}


/// The project a process belongs to, as far as it could be found out.
#[derive(Clone, Debug)]
pub struct ProjectInfo {
    pub name: String,
    pub path: String,
}

impl ProjectInfo {
    /// A copy of this project.
    pub fn duplicate(&self) -> (copy: ProjectInfo)
        ensures
            copy.name@ == self.name@,
            copy.path@ == self.path@,
    {
        ProjectInfo { name: self.name.clone(), path: self.path.clone() }
    }
}

/// The container that publishes a port.
#[derive(Clone, Debug)]
pub struct DockerContainerInfo {
    pub name: String,
    pub id: String,
}

/// What the user picked from the menu.
#[derive(Clone, Debug)]
pub enum MenuAction {
    KillPid { pid: i32 },
    KillAll,
    DockerStop { container: String },
    DockerStopAll,
    BrewStop { service: String },
    BrewStopAll,
    WindowsServiceStop { service: String },
    WindowsServiceStopAll,
    EditConfig,
    ReloadConfig,
    LaunchAtLogin,
    Quit,
}

/// Work handed to the background worker.
#[derive(Clone, Debug)]
pub enum WorkerCommand {
    KillPid(KillTarget),
    KillAll(Vec<KillTarget>),
    DockerStop { container: String },
    BrewStop { service: String },
    WindowsServiceStop { service: String },
}

/// What reaches the foreground from the background threads and the menu.
#[derive(Clone, Debug)]
pub enum UserEvent {
    ProcessesUpdated(Vec<ProcessInfo>),
    MenuAction(MenuAction),
    KillFeedback(KillFeedback),
    MonitorError(String),
    ConfigReloaded(Config),
    ConfigReloadFailed(String),
}

/// Everything the foreground knows. Only the foreground changes it.
#[derive(Clone, Debug)]
pub struct AppState {
    pub processes: Vec<ProcessInfo>,
    pub last_feedback: Option<KillFeedback>,
    pub config: Config,
    pub project_cache: HashMap<i32, ProjectInfo>,
    pub docker_port_map: HashMap<u16, DockerContainerInfo>,
    pub brew_services_map: ServiceTable,
    pub windows_services_map: ServiceTable,
}

impl Default for AppState {
    fn default() -> (state: AppState)
        ensures
            state.processes@.len() == 0,
            state.last_feedback.is_none(),
            crate::config::valid_config(state.config),
            state.project_cache@.len() == 0,
            state.docker_port_map@.len() == 0,
            state.brew_services_map@.len() == 0,
            state.windows_services_map@.len() == 0,
    {
        AppState {
            processes: Vec::new(),
            last_feedback: None,
            config: Config::default(),
            project_cache: HashMap::new(),
            docker_port_map: HashMap::new(),
            brew_services_map: ServiceTable::new(),
            windows_services_map: ServiceTable::new(),
        }
    }
}


/// The mathematical content of a [`MenuAction`].
pub enum Choice {
    KillPid(int),
    KillAll,
    DockerStop(Seq<char>),
    DockerStopAll,
    BrewStop(Seq<char>),
    BrewStopAll,
    WindowsServiceStop(Seq<char>),
    WindowsServiceStopAll,
    EditConfig,
    ReloadConfig,
    LaunchAtLogin,
    Quit,
}

impl View for MenuAction {
    type V = Choice;

    open spec fn view(&self) -> Choice {
        match self {
            MenuAction::KillPid { pid } => Choice::KillPid(*pid as int),
            MenuAction::KillAll => Choice::KillAll,
            MenuAction::DockerStop { container } => Choice::DockerStop(container@),
            MenuAction::DockerStopAll => Choice::DockerStopAll,
            MenuAction::BrewStop { service } => Choice::BrewStop(service@),
            MenuAction::BrewStopAll => Choice::BrewStopAll,
            MenuAction::WindowsServiceStop { service } => Choice::WindowsServiceStop(service@),
            MenuAction::WindowsServiceStopAll => Choice::WindowsServiceStopAll,
            MenuAction::EditConfig => Choice::EditConfig,
            MenuAction::ReloadConfig => Choice::ReloadConfig,
            MenuAction::LaunchAtLogin => Choice::LaunchAtLogin,
            MenuAction::Quit => Choice::Quit,
        }
    }
}


/// The mathematical content of a [`WorkerCommand`].
pub enum Command {
    KillPid(Target),
    KillAll(Seq<Target>),
    DockerStop(Seq<char>),
    BrewStop(Seq<char>),
    WindowsServiceStop(Seq<char>),
}

impl View for WorkerCommand {
    type V = Command;

    open spec fn view(&self) -> Command {
        match self {
            WorkerCommand::KillPid(target) => Command::KillPid(target@),
            WorkerCommand::KillAll(list) => Command::KillAll(targets(list@)),
            WorkerCommand::DockerStop { container } => Command::DockerStop(container@),
            WorkerCommand::BrewStop { service } => Command::BrewStop(service@),
            WorkerCommand::WindowsServiceStop { service } => Command::WindowsServiceStop(service@),
        }
    }
}

/// The views of a list of commands, in order.
pub open spec fn commands(list: Seq<WorkerCommand>) -> Seq<Command> {
    list.map_values(|c: WorkerCommand| c@)
}


} // verus!
