//! The decisions of the foreground: how each event changes the application
//! state, and what the picks from the menu ask of the background worker.
//!
//! Nothing here blocks. Whatever needs the operating system is done by the
//! caller, before or after, on a background thread; these functions take
//! completed results and return what to do next.

use crate::brew::{brew_managed, get_brew_managed_service};
use crate::config::Config;
use crate::menu::{
    all_targets, collect_targets_for_all, describe_pid, described,
    lemma_targets_depend_on_content, with_pid,
};
use crate::model::{
    commands, listeners, AppState, Command, DockerContainerInfo, Feedback, FeedbackSeverity,
    KillFeedback, MenuAction, Platform, ProcessInfo, ProjectInfo, WorkerCommand,
};
use crate::notify::has_port;
use crate::services::{str_equal, ServiceTable};
use crate::text::{
    contains_str, decimal, has_substring, lowercase, push_signed, to_chars, views,
};
use crate::windows_services::{get_windows_managed_service, windows_managed};
use std::collections::HashMap;
use vstd::prelude::*;

verus! {

/// How long integration data is used before it is asked for again, in
/// milliseconds.
pub const INTEGRATION_REFRESH_MS: u64 = 5000;

/// The ports on which some record listens.
pub open spec fn port_set(records: Seq<ProcessInfo>) -> Set<u16> {
    Set::new(|port: u16| has_port(records, port))
}

fn every_port_in(a: &[ProcessInfo], b: &[ProcessInfo]) -> (all: bool)
    ensures
        all == forall|port: u16| has_port(a@, port) ==> has_port(b@, port),
{
    let mut i: usize = 0;
    while i < a.len()
        invariant
            i <= a.len(),
            forall|k: int| 0 <= k < i ==> has_port(b@, (#[trigger] a@[k]).port),
        decreases a.len() - i,
    {
        let port = a[i].port;
        let mut j: usize = 0;
        let mut found = false;
        while j < b.len() && !found
            invariant
                j <= b.len(),
                found ==> has_port(b@, port),
                !found ==> forall|k: int| 0 <= k < j ==> (#[trigger] b@[k]).port != port,
            decreases b.len() - j + (if found { 0int } else { 1int }),
        {
            if b[j].port == port {
                found = true;
            } else {
                j = j + 1;
            }
        }
        if !found {
            assert(has_port(a@, port));
            return false;
        }
        i = i + 1;
    }
    assert forall|port: u16| has_port(a@, port) implies has_port(b@, port) by {
        let k = choose|k: int| 0 <= k < a@.len() && (#[trigger] a@[k]).port == port;
        assert(has_port(b@, a@[k].port));
    }
    true
}

/// Whether two lists of listeners differ in the ports they hold. Which
/// process holds a port, and how many do, plays no part.
pub fn ports_changed(previous: &[ProcessInfo], current: &[ProcessInfo]) -> (differ: bool)
    ensures
        differ == (port_set(previous@) != port_set(current@)),
{
    let same = every_port_in(previous, current) && every_port_in(current, previous);
    proof {
        if same {
            assert(port_set(previous@) =~= port_set(current@));
        } else {
            if !(forall|port: u16| has_port(previous@, port) ==> has_port(current@, port)) {
                let port = choose|port: u16| has_port(previous@, port) && !has_port(current@, port);
                assert(port_set(previous@).contains(port));
                assert(!port_set(current@).contains(port));
            } else {
                let port = choose|port: u16| has_port(current@, port) && !has_port(previous@, port);
                assert(port_set(current@).contains(port));
                assert(!port_set(previous@).contains(port));
            }
        }
    }
    !same
}

/// Whether integration data is to be asked for again: when the ports
/// changed, or when the data is at least [`INTEGRATION_REFRESH_MS`] old.
pub fn needs_refresh(ports_changed: bool, since_refresh_ms: u64) -> (refresh: bool)
    ensures
        refresh == (ports_changed || since_refresh_ms >= INTEGRATION_REFRESH_MS),
{
    ports_changed || since_refresh_ms >= INTEGRATION_REFRESH_MS
}

/// What follows from a new snapshot.
#[derive(Debug)]
pub struct UpdatePlan {
    /// The listeners before the update.
    pub previous: Vec<ProcessInfo>,
    /// Whether to ask Docker for its containers.
    pub query_docker: bool,
    /// Whether to ask Homebrew for its services.
    pub query_brew: bool,
    /// Whether to ask the service manager for its services.
    pub query_windows_services: bool,
}

/// Takes a new snapshot into the state and says which integrations are to
/// be asked again: those that are switched on, when the ports changed or the
/// data is due for a refresh.
pub fn on_processes_updated(
    state: &mut AppState,
    processes: Vec<ProcessInfo>,
    since_refresh_ms: u64,
) -> (plan: UpdatePlan)
    ensures
        final(state).processes == processes,
        plan.previous == old(state).processes,
        final(state).last_feedback == old(state).last_feedback,
        final(state).config == old(state).config,
        final(state).project_cache == old(state).project_cache,
        final(state).docker_port_map == old(state).docker_port_map,
        final(state).brew_services_map == old(state).brew_services_map,
        final(state).windows_services_map == old(state).windows_services_map,
        ({
            let refresh = port_set(old(state).processes@) != port_set(processes@)
                || since_refresh_ms >= INTEGRATION_REFRESH_MS;
            &&& plan.query_docker == (refresh && old(state).config.integrations.docker_enabled)
            &&& plan.query_brew == (refresh && old(state).config.integrations.brew_enabled)
            &&& plan.query_windows_services == (refresh
                && old(state).config.integrations.windows_services_enabled)
        }),
{
    let changed = ports_changed(state.processes.as_slice(), processes.as_slice());
    let refresh = needs_refresh(changed, since_refresh_ms);
    let mut previous = processes;
    std::mem::swap(&mut state.processes, &mut previous);
    UpdatePlan {
        previous,
        query_docker: refresh && state.config.integrations.docker_enabled,
        query_brew: refresh && state.config.integrations.brew_enabled,
        query_windows_services: refresh && state.config.integrations.windows_services_enabled,
    }
}

/// What the integrations answered; `None` for one that was not asked.
#[derive(Debug)]
pub struct IntegrationRefresh {
    pub docker: Option<HashMap<u16, DockerContainerInfo>>,
    pub brew: Option<ServiceTable>,
    pub windows_services: Option<ServiceTable>,
}

/// Takes the answers of the integrations into the state. The data of an
/// integration that is switched off is dropped; the data of one that was not
/// asked stays.
pub fn apply_refresh(state: &mut AppState, refresh: IntegrationRefresh)
    ensures
        final(state).processes == old(state).processes,
        final(state).last_feedback == old(state).last_feedback,
        final(state).config == old(state).config,
        final(state).project_cache == old(state).project_cache,
        final(state).docker_port_map@ == (if !old(state).config.integrations.docker_enabled {
            Map::<u16, DockerContainerInfo>::empty()
        } else {
            match refresh.docker {
                Some(map) => map@,
                None => old(state).docker_port_map@,
            }
        }),
        final(state).brew_services_map@ == (if !old(state).config.integrations.brew_enabled {
            Seq::<(Seq<char>, Seq<char>)>::empty()
        } else {
            match refresh.brew {
                Some(table) => table@,
                None => old(state).brew_services_map@,
            }
        }),
        final(state).windows_services_map@ == (
        if !old(state).config.integrations.windows_services_enabled {
            Seq::<(Seq<char>, Seq<char>)>::empty()
        } else {
            match refresh.windows_services {
                Some(table) => table@,
                None => old(state).windows_services_map@,
            }
        }),
{
    if !state.config.integrations.docker_enabled {
        state.docker_port_map = HashMap::new();
    } else {
        match refresh.docker {
            Some(map) => {
                state.docker_port_map = map;
            },
            None => {},
        }
    }
    if !state.config.integrations.brew_enabled {
        state.brew_services_map = ServiceTable::new();
        assert(state.brew_services_map@ =~= Seq::<(Seq<char>, Seq<char>)>::empty());
    } else {
        match refresh.brew {
            Some(table) => {
                state.brew_services_map = table;
            },
            None => {},
        }
    }
    if !state.config.integrations.windows_services_enabled {
        state.windows_services_map = ServiceTable::new();
        assert(state.windows_services_map@ =~= Seq::<(Seq<char>, Seq<char>)>::empty());
    } else {
        match refresh.windows_services {
            Some(table) => {
                state.windows_services_map = table;
            },
            None => {},
        }
    }
}

/// The pids among the records whose project is not known yet, ascending,
/// each once.
pub open spec fn uncached_pids(records: Seq<ProcessInfo>, cache: Map<i32, ProjectInfo>) -> Seq<i32>
    decreases records.len(),
{
    if records.len() == 0 {
        Seq::<i32>::empty()
    } else if cache.contains_key(records.last().pid) {
        uncached_pids(records.drop_last(), cache)
    } else {
        with_pid(uncached_pids(records.drop_last(), cache), records.last().pid)
    }
}

/// The processes whose project is still to be found out.
pub fn missing_project_pids(state: &AppState) -> (pids: Vec<i32>)
    ensures
        pids@ == uncached_pids(state.processes@, state.project_cache@),
{
    broadcast use vstd::std_specs::hash::group_hash_axioms;

    let mut pids: Vec<i32> = Vec::new();
    let mut i: usize = 0;
    assert(state.processes@.take(0) =~= Seq::<ProcessInfo>::empty());
    while i < state.processes.len()
        invariant
            i <= state.processes.len(),
            pids@ == uncached_pids(state.processes@.take(i as int), state.project_cache@),
        decreases state.processes.len() - i,
    {
        proof {
            assert(state.processes@.take(i + 1).drop_last() =~= state.processes@.take(i as int));
            assert(state.processes@.take(i + 1).last() == state.processes@[i as int]);
        }
        let pid = state.processes[i].pid;
        if !state.project_cache.contains_key(&pid) {
            crate::menu::insert_pid(&mut pids, pid);
        }
        i = i + 1;
    }
    assert(state.processes@.take(state.processes.len() as int) =~= state.processes@);
    pids
}

/// Whether some record belongs to the process `pid`.
pub open spec fn has_pid(records: Seq<ProcessInfo>, pid: i32) -> bool {
    exists|i: int| 0 <= i < records.len() && (#[trigger] records[i]).pid == pid
}

/// Forgets the projects of processes that no longer listen.
pub fn prune_project_cache(state: &mut AppState)
    ensures
        final(state).processes == old(state).processes,
        final(state).last_feedback == old(state).last_feedback,
        final(state).config == old(state).config,
        final(state).docker_port_map == old(state).docker_port_map,
        final(state).brew_services_map == old(state).brew_services_map,
        final(state).windows_services_map == old(state).windows_services_map,
        forall|pid: i32|
            #![trigger final(state).project_cache@.contains_key(pid)]
            final(state).project_cache@.contains_key(pid) <==> (old(
                state,
            ).project_cache@.contains_key(pid) && has_pid(old(state).processes@, pid)),
        forall|pid: i32|
            #![trigger final(state).project_cache@[pid]]
            final(state).project_cache@.contains_key(pid) ==> final(state).project_cache@[pid].name@
                == old(state).project_cache@[pid].name@ && final(state).project_cache@[pid].path@
                == old(state).project_cache@[pid].path@,
{
    broadcast use vstd::std_specs::hash::group_hash_axioms;

    let mut kept: HashMap<i32, ProjectInfo> = HashMap::new();
    let mut i: usize = 0;
    while i < state.processes.len()
        invariant
            i <= state.processes.len(),
            *state == *old(state),
            forall|pid: i32|
                #![trigger kept@.contains_key(pid)]
                kept@.contains_key(pid) <==> (state.project_cache@.contains_key(pid) && has_pid(
                    state.processes@.take(i as int),
                    pid,
                )),
            forall|pid: i32|
                #![trigger kept@[pid]]
                kept@.contains_key(pid) ==> kept@[pid].name@ == state.project_cache@[pid].name@
                    && kept@[pid].path@ == state.project_cache@[pid].path@,
        decreases state.processes.len() - i,
    {
        let pid = state.processes[i].pid;
        let ghost before = kept@;
        match state.project_cache.get(&pid) {
            Some(info) => {
                kept.insert(pid, info.duplicate());
            },
            None => {},
        }
        proof {
            let shorter = state.processes@.take(i as int);
            let longer = state.processes@.take(i + 1);
            assert(longer[i as int].pid == pid);
            assert forall|other: i32|
                #![trigger kept@.contains_key(other)]
                kept@.contains_key(other) <==> (state.project_cache@.contains_key(other)
                    && has_pid(longer, other)) by {
                if has_pid(shorter, other) {
                    let k = choose|k: int| 0 <= k < shorter.len() && (#[trigger] shorter[k]).pid == other;
                    assert(longer[k].pid == other);
                }
                if has_pid(longer, other) && other != pid {
                    let k = choose|k: int| 0 <= k < longer.len() && (#[trigger] longer[k]).pid == other;
                    assert(shorter[k].pid == other);
                }
                assert(before.contains_key(other) <==> (state.project_cache@.contains_key(other)
                    && has_pid(shorter, other)));
            }
        }
        i = i + 1;
    }
    assert(state.processes@.take(state.processes.len() as int) =~= state.processes@);
    state.project_cache = kept;
}

/// The service that manages a listener on the given platform, if any.
pub open spec fn managed_by(state: AppState, record: ProcessInfo, platform: Platform) -> Option<
    Seq<char>,
> {
    match platform {
        Platform::MacOs => brew_managed(
            lowercase(record.command@),
            record.port as int,
            state.brew_services_map@,
        ),
        Platform::Windows => windows_managed(
            lowercase(record.command@),
            record.port as int,
            state.windows_services_map@,
        ),
    }
}

/// Whether a listener is an ordinary process: its port is not published by
/// a container, and no service manages it.
pub open spec fn is_regular(state: AppState, record: ProcessInfo, platform: Platform) -> bool {
    !state.docker_port_map@.contains_key(record.port) && managed_by(state, record, platform).is_none()
}

/// The ordinary processes among the records, in order.
pub open spec fn regular_of(records: Seq<ProcessInfo>, state: AppState, platform: Platform) -> Seq<
    ProcessInfo,
>
    decreases records.len(),
{
    if records.len() == 0 {
        Seq::<ProcessInfo>::empty()
    } else if is_regular(state, records.last(), platform) {
        regular_of(records.drop_last(), state, platform).push(records.last())
    } else {
        regular_of(records.drop_last(), state, platform)
    }
}

/// The services that manage some of the records, each once, in the order
/// in which they first occur.
pub open spec fn services_of(records: Seq<ProcessInfo>, state: AppState, platform: Platform) -> Seq<
    Seq<char>,
>
    decreases records.len(),
{
    if records.len() == 0 {
        Seq::<Seq<char>>::empty()
    } else {
        let before = services_of(records.drop_last(), state, platform);
        match managed_by(state, records.last(), platform) {
            Some(service) => if before.contains(service) {
                before
            } else {
                before.push(service)
            },
            None => before,
        }
    }
}

/// The names of the containers that publish a port below `ports`, each
/// once, in ascending order of the lowest port they publish.
pub open spec fn names_below(map: Map<u16, DockerContainerInfo>, ports: int) -> Seq<Seq<char>>
    decreases ports,
{
    if ports <= 0 {
        Seq::<Seq<char>>::empty()
    } else {
        let before = names_below(map, ports - 1);
        let port = (ports - 1) as u16;
        if map.contains_key(port) && !before.contains(map[port].name@) {
            before.push(map[port].name@)
        } else {
            before
        }
    }
}

/// The names of all containers that publish a port.
pub open spec fn container_names(map: Map<u16, DockerContainerInfo>) -> Seq<Seq<char>> {
    names_below(map, 0x10000)
}

fn holds_name(names: &Vec<String>, name: &str) -> (found: bool)
    ensures
        found == views(names@).contains(name@),
{
    let mut i: usize = 0;
    while i < names.len()
        invariant
            i <= names.len(),
            forall|k: int| 0 <= k < i ==> views(names@)[k] != name@,
        decreases names.len() - i,
    {
        assert(views(names@)[i as int] == names@[i as int]@);
        if str_equal(names[i].as_str(), name) {
            return true;
        }
        i = i + 1;
    }
    false
}

fn push_name(names: &mut Vec<String>, name: String)
    ensures
        views(final(names)@) == views(old(names)@).push(name@),
{
    names.push(name);
    assert(views(names@) =~= views(old(names)@).push(name@));
}

/// The service that manages a listener on the given platform, if any.
pub fn managing_service(state: &AppState, record: &ProcessInfo, platform: Platform) -> (service:
    Option<String>)
    ensures
        managed_by(*state, *record, platform) == (match service {
            Some(name) => Some(name@),
            None => None,
        }),
{
    match platform {
        Platform::MacOs => get_brew_managed_service(
            record.command.as_str(),
            record.port,
            &state.brew_services_map,
        ),
        Platform::Windows => get_windows_managed_service(
            record.command.as_str(),
            record.port,
            &state.windows_services_map,
        ),
    }
}

/// The ordinary processes among the listeners: those that neither a
/// container nor a managed service accounts for.
pub fn regular_processes(state: &AppState, platform: Platform) -> (list: Vec<ProcessInfo>)
    ensures
        listeners(list@) == listeners(regular_of(state.processes@, *state, platform)),
{
    broadcast use vstd::std_specs::hash::group_hash_axioms;

    let mut list: Vec<ProcessInfo> = Vec::new();
    let mut i: usize = 0;
    proof {
        assert(state.processes@.take(0) =~= Seq::<ProcessInfo>::empty());
        assert(listeners(list@) =~= listeners(Seq::<ProcessInfo>::empty()));
    }
    while i < state.processes.len()
        invariant
            i <= state.processes.len(),
            listeners(list@) == listeners(
                regular_of(state.processes@.take(i as int), *state, platform),
            ),
        decreases state.processes.len() - i,
    {
        proof {
            assert(state.processes@.take(i + 1).drop_last() =~= state.processes@.take(i as int));
            assert(state.processes@.take(i + 1).last() == state.processes@[i as int]);
        }
        let record = &state.processes[i];
        let ghost before = regular_of(state.processes@.take(i as int), *state, platform);
        if !state.docker_port_map.contains_key(&record.port) && managing_service(
            state,
            record,
            platform,
        ).is_none() {
            let ghost shown = listeners(list@);
            list.push(record.duplicate());
            assert(listeners(list@) =~= shown.push(record@));
            assert(listeners(before.push(*record)) =~= listeners(before).push(record@));
        }
        i = i + 1;
    }
    assert(state.processes@.take(state.processes.len() as int) =~= state.processes@);
    list
}

/// The services that manage some of the listeners, each once.
pub fn managed_services(state: &AppState, platform: Platform) -> (names: Vec<String>)
    ensures
        views(names@) == services_of(state.processes@, *state, platform),
{
    let mut names: Vec<String> = Vec::new();
    let mut i: usize = 0;
    proof {
        assert(state.processes@.take(0) =~= Seq::<ProcessInfo>::empty());
        assert(views(names@) =~= Seq::<Seq<char>>::empty());
    }
    while i < state.processes.len()
        invariant
            i <= state.processes.len(),
            views(names@) == services_of(state.processes@.take(i as int), *state, platform),
        decreases state.processes.len() - i,
    {
        proof {
            assert(state.processes@.take(i + 1).drop_last() =~= state.processes@.take(i as int));
            assert(state.processes@.take(i + 1).last() == state.processes@[i as int]);
        }
        match managing_service(state, &state.processes[i], platform) {
            Some(service) => {
                if !holds_name(&names, service.as_str()) {
                    push_name(&mut names, service);
                }
            },
            None => {},
        }
        i = i + 1;
    }
    assert(state.processes@.take(state.processes.len() as int) =~= state.processes@);
    names
}

/// The names of all containers that publish a port, each once, in ascending
/// order of the lowest port they publish.
pub fn all_container_names(map: &HashMap<u16, DockerContainerInfo>) -> (names: Vec<String>)
    ensures
        views(names@) == container_names(map@),
{
    broadcast use vstd::std_specs::hash::group_hash_axioms;

    let mut names: Vec<String> = Vec::new();
    let mut next: u32 = 0;
    assert(views(names@) =~= Seq::<Seq<char>>::empty());
    while next < 0x10000
        invariant
            next <= 0x10000,
            views(names@) == names_below(map@, next as int),
        decreases 0x10000 - next,
    {
        let port: u16 = next as u16;
        match map.get(&port) {
            Some(info) => {
                if !holds_name(&names, info.name.as_str()) {
                    push_name(&mut names, info.name.clone());
                }
            },
            None => {},
        }
        next = next + 1;
    }
    names
}


/// What the foreground does in answer to a pick from the menu.
#[derive(Debug)]
pub enum Reaction {
    /// Hand these commands to the worker, in order.
    Dispatch(Vec<WorkerCommand>),
    /// Show this feedback.
    Feedback(KillFeedback),
    /// Open the configuration file in an editor.
    EditConfig,
    /// Switch launching at login on or off.
    ToggleLaunchAtLogin { enable: bool },
    /// Read the configuration again.
    ReloadConfig,
    /// Leave the event loop.
    Quit,
}

/// The mathematical content of a [`Reaction`].
pub enum Response {
    Dispatch(Seq<Command>),
    Feedback(Feedback),
    EditConfig,
    ToggleLaunchAtLogin(bool),
    ReloadConfig,
    Quit,
}

impl View for Reaction {
    type V = Response;

    open spec fn view(&self) -> Response {
        match self {
            Reaction::Dispatch(list) => Response::Dispatch(commands(list@)),
            Reaction::Feedback(feedback) => Response::Feedback(feedback@),
            Reaction::EditConfig => Response::EditConfig,
            Reaction::ToggleLaunchAtLogin { enable } => Response::ToggleLaunchAtLogin(*enable),
            Reaction::ReloadConfig => Response::ReloadConfig,
            Reaction::Quit => Response::Quit,
        }
    }
}

/// One command to stop each of the named containers.
pub open spec fn docker_stops(names: Seq<Seq<char>>) -> Seq<Command> {
    names.map_values(|name: Seq<char>| Command::DockerStop(name))
}

/// One command to stop each of the named services.
pub open spec fn service_stops(names: Seq<Seq<char>>, platform: Platform) -> Seq<Command> {
    names.map_values(
        |name: Seq<char>|
            match platform {
                Platform::MacOs => Command::BrewStop(name),
                Platform::Windows => Command::WindowsServiceStop(name),
            },
    )
}

/// The answer to a request to terminate one process: it goes to the worker
/// if the process still listens and the worker can be reached.
pub open spec fn kill_pid_response(state: AppState, pid: i32, worker_available: bool) -> Response {
    match described(state.processes@, pid) {
        Some(target) => if worker_available {
            Response::Dispatch(seq![Command::KillPid(target)])
        } else {
            Response::Feedback(
                Feedback {
                    message: "Worker unavailable for PID "@ + decimal(pid as int) + "."@,
                    severity: FeedbackSeverity::Error,
                },
            )
        },
        None => Response::Feedback(
            Feedback {
                message: "PID "@ + decimal(pid as int) + " is no longer active."@,
                severity: FeedbackSeverity::Info,
            },
        ),
    }
}

/// The answer to a request to terminate every ordinary process.
pub open spec fn kill_all_response(
    state: AppState,
    worker_available: bool,
    platform: Platform,
) -> Response {
    let list = all_targets(regular_of(state.processes@, state, platform));
    if list.len() == 0 {
        Response::Feedback(
            Feedback {
                message: "No dev port listeners to terminate."@,
                severity: FeedbackSeverity::Info,
            },
        )
    } else if worker_available {
        Response::Dispatch(seq![Command::KillAll(list)])
    } else {
        Response::Feedback(
            Feedback {
                message: "Worker unavailable for batch request."@,
                severity: FeedbackSeverity::Error,
            },
        )
    }
}

/// The answer to a request to stop one container or service while the
/// worker cannot be reached.
pub open spec fn stop_rejected(kind: Seq<char>, name: Seq<char>) -> Response {
    Response::Feedback(
        Feedback {
            message: "Worker unavailable for "@ + kind + " "@ + name + "."@,
            severity: FeedbackSeverity::Error,
        },
    )
}

/// The answer to a request to stop several containers or services while
/// the worker cannot be reached.
pub open spec fn stop_all_rejected() -> Response {
    Response::Feedback(
        Feedback {
            message: "Worker unavailable for batch request."@,
            severity: FeedbackSeverity::Error,
        },
    )
}

/// The answer to a pick from the menu.
///
/// A request that needs the worker goes to the worker. While the worker
/// cannot be reached, every such request is turned down at once, with
/// feedback that says so; none is dropped without a word.
pub open spec fn planned(
    state: AppState,
    action: MenuAction,
    worker_available: bool,
    platform: Platform,
) -> Response {
    match action {
        MenuAction::KillPid { pid } => kill_pid_response(state, pid, worker_available),
        MenuAction::KillAll => kill_all_response(state, worker_available, platform),
        MenuAction::DockerStop { container } => if worker_available {
            Response::Dispatch(seq![Command::DockerStop(container@)])
        } else {
            stop_rejected("container"@, container@)
        },
        MenuAction::DockerStopAll => if worker_available {
            Response::Dispatch(docker_stops(container_names(state.docker_port_map@)))
        } else {
            stop_all_rejected()
        },
        MenuAction::BrewStop { service } => if worker_available {
            Response::Dispatch(seq![Command::BrewStop(service@)])
        } else {
            stop_rejected("service"@, service@)
        },
        MenuAction::BrewStopAll => if worker_available {
            Response::Dispatch(
                service_stops(
                    services_of(state.processes@, state, Platform::MacOs),
                    Platform::MacOs,
                ),
            )
        } else {
            stop_all_rejected()
        },
        MenuAction::WindowsServiceStop { service } => if worker_available {
            Response::Dispatch(seq![Command::WindowsServiceStop(service@)])
        } else {
            stop_rejected("service"@, service@)
        },
        MenuAction::WindowsServiceStopAll => if worker_available {
            Response::Dispatch(
                service_stops(
                    services_of(state.processes@, state, Platform::Windows),
                    Platform::Windows,
                ),
            )
        } else {
            stop_all_rejected()
        },
        MenuAction::EditConfig => Response::EditConfig,
        MenuAction::ReloadConfig => Response::ReloadConfig,
        MenuAction::LaunchAtLogin => Response::ToggleLaunchAtLogin(
            !state.config.system.launch_at_login,
        ),
        MenuAction::Quit => Response::Quit,
    }
}

fn reject_stop(kind: &str, name: &str) -> (reaction: Reaction)
    ensures
        reaction@ == stop_rejected(kind@, name@),
{
    let mut message = String::from_str("Worker unavailable for ");
    message.append(kind);
    message.append(" ");
    message.append(name);
    message.append(".");
    Reaction::Feedback(KillFeedback::error(message))
}

fn reject_stop_all() -> (reaction: Reaction)
    ensures
        reaction@ == stop_all_rejected(),
{
    Reaction::Feedback(
        KillFeedback::error(String::from_str("Worker unavailable for batch request.")),
    )
}

fn one_command(command: WorkerCommand) -> (reaction: Reaction)
    ensures
        reaction@ == Response::Dispatch(seq![command@]),
{
    let mut list: Vec<WorkerCommand> = Vec::new();
    list.push(command);
    assert(commands(list@) =~= seq![command@]);
    Reaction::Dispatch(list)
}

fn plan_kill_pid(state: &AppState, pid: i32, worker_available: bool) -> (reaction: Reaction)
    ensures
        reaction@ == kill_pid_response(*state, pid, worker_available),
{
    match describe_pid(pid, state.processes.as_slice()) {
        Some(target) => {
            if worker_available {
                one_command(WorkerCommand::KillPid(target))
            } else {
                let mut message = String::from_str("Worker unavailable for PID ");
                push_signed(&mut message, pid as i64);
                message.append(".");
                Reaction::Feedback(KillFeedback::error(message))
            }
        },
        None => {
            let mut message = String::from_str("PID ");
            push_signed(&mut message, pid as i64);
            message.append(" is no longer active.");
            Reaction::Feedback(KillFeedback::info(message))
        },
    }
}

fn plan_kill_all(state: &AppState, worker_available: bool, platform: Platform) -> (reaction:
    Reaction)
    ensures
        reaction@ == kill_all_response(*state, worker_available, platform),
{
    let regular = regular_processes(state, platform);
    let list = collect_targets_for_all(regular.as_slice());
    proof {
        lemma_targets_depend_on_content(
            regular@,
            regular_of(state.processes@, *state, platform),
        );
    }
    if list.len() == 0 {
        Reaction::Feedback(
            KillFeedback::info(String::from_str("No dev port listeners to terminate.")),
        )
    } else if worker_available {
        one_command(WorkerCommand::KillAll(list))
    } else {
        Reaction::Feedback(
            KillFeedback::error(String::from_str("Worker unavailable for batch request.")),
        )
    }
}

fn plan_docker_stops(names: Vec<String>) -> (reaction: Reaction)
    ensures
        reaction@ == Response::Dispatch(docker_stops(views(names@))),
{
    let mut list: Vec<WorkerCommand> = Vec::new();
    let mut i: usize = 0;
    while i < names.len()
        invariant
            i <= names.len(),
            list.len() == i,
            forall|k: int|
                0 <= k < i ==> (#[trigger] list@[k])@ == docker_stops(views(names@))[k],
        decreases names.len() - i,
    {
        assert(views(names@)[i as int] == names@[i as int]@);
        list.push(WorkerCommand::DockerStop { container: names[i].clone() });
        i = i + 1;
    }
    assert(commands(list@) =~= docker_stops(views(names@)));
    Reaction::Dispatch(list)
}

fn plan_service_stops(names: Vec<String>, platform: Platform) -> (reaction: Reaction)
    ensures
        reaction@ == Response::Dispatch(service_stops(views(names@), platform)),
{
    let mut list: Vec<WorkerCommand> = Vec::new();
    let mut i: usize = 0;
    while i < names.len()
        invariant
            i <= names.len(),
            list.len() == i,
            forall|k: int|
                0 <= k < i ==> (#[trigger] list@[k])@ == service_stops(views(names@), platform)[k],
        decreases names.len() - i,
    {
        assert(views(names@)[i as int] == names@[i as int]@);
        let service = names[i].clone();
        match platform {
            Platform::MacOs => {
                list.push(WorkerCommand::BrewStop { service });
            },
            Platform::Windows => {
                list.push(WorkerCommand::WindowsServiceStop { service });
            },
        }
        i = i + 1;
    }
    assert(commands(list@) =~= service_stops(views(names@), platform));
    Reaction::Dispatch(list)
}

/// Decides what a pick from the menu leads to, given the state and whether
/// the worker can be reached. A request that needs the worker is handed to
/// it, or turned down with feedback when it cannot be reached.
pub fn plan_menu_action(
    state: &AppState,
    action: MenuAction,
    worker_available: bool,
    platform: Platform,
) -> (reaction: Reaction)
    ensures
        reaction@ == planned(*state, action, worker_available, platform),
{
    match action {
        MenuAction::KillPid { pid } => plan_kill_pid(state, pid, worker_available),
        MenuAction::KillAll => plan_kill_all(state, worker_available, platform),
        MenuAction::DockerStop { container } => {
            if worker_available {
                one_command(WorkerCommand::DockerStop { container })
            } else {
                reject_stop("container", container.as_str())
            }
        },
        MenuAction::DockerStopAll => {
            if worker_available {
                plan_docker_stops(all_container_names(&state.docker_port_map))
            } else {
                reject_stop_all()
            }
        },
        MenuAction::BrewStop { service } => {
            if worker_available {
                one_command(WorkerCommand::BrewStop { service })
            } else {
                reject_stop("service", service.as_str())
            }
        },
        MenuAction::BrewStopAll => {
            if worker_available {
                plan_service_stops(managed_services(state, Platform::MacOs), Platform::MacOs)
            } else {
                reject_stop_all()
            }
        },
        MenuAction::WindowsServiceStop { service } => {
            if worker_available {
                one_command(WorkerCommand::WindowsServiceStop { service })
            } else {
                reject_stop("service", service.as_str())
            }
        },
        MenuAction::WindowsServiceStopAll => {
            if worker_available {
                plan_service_stops(managed_services(state, Platform::Windows), Platform::Windows)
            } else {
                reject_stop_all()
            }
        },
        MenuAction::EditConfig => Reaction::EditConfig,
        MenuAction::ReloadConfig => Reaction::ReloadConfig,
        MenuAction::LaunchAtLogin => Reaction::ToggleLaunchAtLogin {
            enable: !state.config.system.launch_at_login,
        },
        MenuAction::Quit => Reaction::Quit,
    }
}


/// Records the feedback of the worker as the last feedback.
pub fn on_kill_feedback(state: &mut AppState, feedback: KillFeedback)
    ensures
        final(state).last_feedback == Some(feedback),
        final(state).processes == old(state).processes,
        final(state).config == old(state).config,
        final(state).project_cache == old(state).project_cache,
        final(state).docker_port_map == old(state).docker_port_map,
        final(state).brew_services_map == old(state).brew_services_map,
        final(state).windows_services_map == old(state).windows_services_map,
{
    state.last_feedback = Some(feedback);
}

/// Records a message as an error. This is what happens to a failed scan and
/// to a configuration that could not be read again.
pub fn on_error_message(state: &mut AppState, message: String)
    ensures
        final(state).last_feedback matches Some(feedback) && feedback.message == message
            && feedback.severity == FeedbackSeverity::Error,
        final(state).processes == old(state).processes,
        final(state).config == old(state).config,
        final(state).project_cache == old(state).project_cache,
        final(state).docker_port_map == old(state).docker_port_map,
        final(state).brew_services_map == old(state).brew_services_map,
        final(state).windows_services_map == old(state).windows_services_map,
{
    state.last_feedback = Some(KillFeedback::error(message));
}

/// Puts a configuration that was read again in place of the old one.
pub fn on_config_reloaded(state: &mut AppState, config: Config)
    ensures
        final(state).config == config,
        final(state).last_feedback matches Some(feedback) && feedback@ == (Feedback {
            message: "Configuration reloaded"@,
            severity: FeedbackSeverity::Info,
        }),
        final(state).processes == old(state).processes,
        final(state).project_cache == old(state).project_cache,
        final(state).docker_port_map == old(state).docker_port_map,
        final(state).brew_services_map == old(state).brew_services_map,
        final(state).windows_services_map == old(state).windows_services_map,
{
    state.config = config;
    state.last_feedback = Some(KillFeedback::info(String::from_str("Configuration reloaded")));
}

/// Takes in the result of a request from the menu to read the
/// configuration again: a configuration that was read replaces the old one;
/// a failure is reported and changes nothing else.
pub fn on_manual_reload(state: &mut AppState, result: Result<Config, String>)
    ensures
        match result {
            Ok(config) => {
                &&& final(state).config == config
                &&& final(state).last_feedback matches Some(feedback) && feedback@ == (Feedback {
                    message: "Configuration reloaded"@,
                    severity: FeedbackSeverity::Info,
                })
            },
            Err(reason) => {
                &&& final(state).config == old(state).config
                &&& final(state).last_feedback matches Some(feedback) && feedback@ == (Feedback {
                    message: "Reload failed: "@ + reason@,
                    severity: FeedbackSeverity::Error,
                })
            },
        },
        final(state).processes == old(state).processes,
        final(state).project_cache == old(state).project_cache,
        final(state).docker_port_map == old(state).docker_port_map,
        final(state).brew_services_map == old(state).brew_services_map,
        final(state).windows_services_map == old(state).windows_services_map,
{
    match result {
        Ok(config) => {
            on_config_reloaded(state, config);
        },
        Err(reason) => {
            let mut message = String::from_str("Reload failed: ");
            message.append(reason.as_str());
            state.last_feedback = Some(KillFeedback::error(message));
        },
    }
}

/// The words that name a command in feedback.
pub open spec fn command_words(command: WorkerCommand) -> Seq<char> {
    match command {
        WorkerCommand::KillPid(_) => "kill"@,
        WorkerCommand::KillAll(_) => "kill-all"@,
        WorkerCommand::DockerStop { container } => "stop"@,
        WorkerCommand::BrewStop { service } => "stop"@,
        WorkerCommand::WindowsServiceStop { service } => "stop"@,
    }
}

/// The feedback for a command that could not be handed to the worker.
pub open spec fn dispatch_failure(command: WorkerCommand, reason: Seq<char>) -> Feedback {
    Feedback {
        message: "Unable to dispatch "@ + command_words(command) + " command: "@ + reason,
        severity: FeedbackSeverity::Error,
    }
}

/// The feedback for a command that could not be handed to the worker, for
/// the reason given. Every command that is not handed over is reported,
/// whatever it asked for.
pub fn dispatch_failed(command: &WorkerCommand, reason: &str) -> (feedback: KillFeedback)
    ensures
        feedback@ == dispatch_failure(*command, reason@),
{
    let mut message = String::from_str("Unable to dispatch ");
    match command {
        WorkerCommand::KillPid(_) => {
            message.append("kill");
        },
        WorkerCommand::KillAll(_) => {
            message.append("kill-all");
        },
        WorkerCommand::DockerStop { container } => {
            message.append("stop");
        },
        WorkerCommand::BrewStop { service } => {
            message.append("stop");
        },
        WorkerCommand::WindowsServiceStop { service } => {
            message.append("stop");
        },
    }
    message.append(" command: ");
    message.append(reason);
    KillFeedback::error(message)
}

/// Whether a pick from the menu asks something of the worker: to terminate
/// a process that still listens, to terminate all while there are ordinary
/// processes, or to stop containers or services.
pub open spec fn needs_worker(state: AppState, action: MenuAction, platform: Platform) -> bool {
    match action {
        MenuAction::KillPid { pid } => described(state.processes@, pid).is_some(),
        MenuAction::KillAll => all_targets(regular_of(state.processes@, state, platform)).len() > 0,
        MenuAction::DockerStop { container } => true,
        MenuAction::DockerStopAll => true,
        MenuAction::BrewStop { service } => true,
        MenuAction::BrewStopAll => true,
        MenuAction::WindowsServiceStop { service } => true,
        MenuAction::WindowsServiceStopAll => true,
        _ => false,
    }
}

/// While the worker cannot be reached, every request that needs it is
/// answered at once with an error that begins "Worker unavailable"; with
/// the worker in reach, every such request is handed to it.
pub proof fn lemma_unreachable_worker_is_reported(
    state: AppState,
    action: MenuAction,
    platform: Platform,
)
    requires
        needs_worker(state, action, platform),
    ensures
        planned(state, action, false, platform) matches Response::Feedback(feedback)
            && feedback.severity == FeedbackSeverity::Error && "Worker unavailable"@.is_prefix_of(
            feedback.message,
        ),
        planned(state, action, true, platform) is Dispatch,
{
    reveal_strlit("Worker unavailable");
    reveal_strlit("Worker unavailable for ");
    reveal_strlit("Worker unavailable for PID ");
    reveal_strlit("Worker unavailable for batch request.");
    let prefix = "Worker unavailable"@;
    let n = prefix.len() as int;
    match planned(state, action, false, platform) {
        Response::Feedback(feedback) => {
            assert(feedback.message.subrange(0, n) =~= prefix);
        },
        _ => {},
    }
}

/// The feedback for having opened the configuration file at `path`.
pub fn config_opened(path: &str) -> (feedback: KillFeedback)
    ensures
        feedback@ == (Feedback {
            message: "Opened config file: "@ + path@,
            severity: FeedbackSeverity::Info,
        }),
{
    let mut message = String::from_str("Opened config file: ");
    message.append(path);
    KillFeedback::info(message)
}

/// What is to be done with the configuration after launching at login was
/// switched.
#[derive(Clone, Copy, Debug, PartialEq, Eq, Structural)]
pub enum SaveRequest {
    /// Leave the stored configuration as it is.
    Keep,
    /// Store the configuration and report a failure to do so.
    Save,
    /// Store the configuration; a failure to do so is passed over.
    SaveQuietly,
}

/// Whether the words of a failure say that the user has yet to approve.
pub open spec fn asks_for_approval(reason: Seq<char>) -> bool {
    has_substring(reason, "approve"@) || has_substring(reason, "Login Items"@)
}

/// What follows from an attempt to switch launching at login, given how the
/// attempt went and what the system says the setting is afterwards: the
/// setting to store, if it is known; what to do with the stored
/// configuration; and the feedback.
pub open spec fn launch_toggle_result(
    toggled: Result<(), String>,
    actual: Result<bool, String>,
) -> (Option<bool>, SaveRequest, Feedback) {
    match toggled {
        Ok(_) => match actual {
            Ok(enabled) => (
                Some(enabled),
                SaveRequest::Save,
                Feedback {
                    message: if enabled {
                        "Launch at login enabled"@
                    } else {
                        "Launch at login disabled"@
                    },
                    severity: FeedbackSeverity::Info,
                },
            ),
            Err(reason) => (
                None,
                SaveRequest::Keep,
                Feedback {
                    message: "Failed to verify launch-at-login state: "@ + reason@,
                    severity: FeedbackSeverity::Error,
                },
            ),
        },
        Err(reason) => if asks_for_approval(reason@) {
            (
                match actual {
                    Ok(enabled) => Some(enabled),
                    Err(_) => None,
                },
                if actual.is_ok() {
                    SaveRequest::SaveQuietly
                } else {
                    SaveRequest::Keep
                },
                Feedback {
                    message: "Please approve in System Settings > Login Items"@,
                    severity: FeedbackSeverity::Warning,
                },
            )
        } else {
            (
                None,
                SaveRequest::Keep,
                Feedback {
                    message: "Failed to toggle launch-at-login: "@ + reason@,
                    severity: FeedbackSeverity::Error,
                },
            )
        },
    }
}

/// Whether the system is to be asked for the state of launching at login
/// after an attempt to switch it: after an attempt that went well, and
/// after one that waits for the user's approval. After any other failure
/// the state is not asked for, and [`on_launch_toggled`] does not read it.
pub fn wants_launch_state(toggled: &Result<(), String>) -> (ask: bool)
    ensures
        ask == (match *toggled {
            Ok(_) => true,
            Err(reason) => asks_for_approval(reason@),
        }),
        !ask ==> forall|a: Result<bool, String>, b: Result<bool, String>|
            #![trigger launch_toggle_result(*toggled, a), launch_toggle_result(*toggled, b)]
            launch_toggle_result(*toggled, a) == launch_toggle_result(*toggled, b),
{
    match toggled {
        Ok(_) => true,
        Err(reason) => {
            let words = to_chars(reason.as_str());
            contains_str(&words, "approve") || contains_str(&words, "Login Items")
        },
    }
}

/// Takes in the result of switching launching at login: stores the setting
/// that the system reports, sets the feedback, and says what to do with the
/// stored configuration.
pub fn on_launch_toggled(
    state: &mut AppState,
    toggled: &Result<(), String>,
    actual: &Result<bool, String>,
) -> (save: SaveRequest)
    ensures
        ({
            let outcome = launch_toggle_result(*toggled, *actual);
            &&& save == outcome.1
            &&& final(state).config.system.launch_at_login == (match outcome.0 {
                Some(enabled) => enabled,
                None => old(state).config.system.launch_at_login,
            })
            &&& final(state).last_feedback matches Some(feedback) && feedback@ == outcome.2
        }),
        final(state).config.monitoring == old(state).config.monitoring,
        final(state).config.integrations == old(state).config.integrations,
        final(state).config.notifications == old(state).config.notifications,
        final(state).processes == old(state).processes,
        final(state).project_cache == old(state).project_cache,
        final(state).docker_port_map == old(state).docker_port_map,
        final(state).brew_services_map == old(state).brew_services_map,
        final(state).windows_services_map == old(state).windows_services_map,
{
    match toggled {
        Ok(_) => match actual {
            Ok(enabled) => {
                state.config.system.launch_at_login = *enabled;
                let message = if *enabled {
                    String::from_str("Launch at login enabled")
                } else {
                    String::from_str("Launch at login disabled")
                };
                state.last_feedback = Some(KillFeedback::info(message));
                SaveRequest::Save
            },
            Err(reason) => {
                let mut message = String::from_str("Failed to verify launch-at-login state: ");
                message.append(reason.as_str());
                state.last_feedback = Some(KillFeedback::error(message));
                SaveRequest::Keep
            },
        },
        Err(reason) => {
            let words = to_chars(reason.as_str());
            if contains_str(&words, "approve") || contains_str(&words, "Login Items") {
                state.last_feedback = Some(
                    KillFeedback::warning(
                        String::from_str("Please approve in System Settings > Login Items"),
                    ),
                );
                match actual {
                    Ok(enabled) => {
                        state.config.system.launch_at_login = *enabled;
                        SaveRequest::SaveQuietly
                    },
                    Err(_) => SaveRequest::Keep,
                }
            } else {
                let mut message = String::from_str("Failed to toggle launch-at-login: ");
                message.append(reason.as_str());
                state.last_feedback = Some(KillFeedback::error(message));
                SaveRequest::Keep
            }
        },
    }
}

/// Reports that the configuration could not be stored.
pub fn on_save_failed(state: &mut AppState, reason: &str)
    ensures
        final(state).last_feedback matches Some(feedback) && feedback@ == (Feedback {
            message: "Failed to save config: "@ + reason@,
            severity: FeedbackSeverity::Error,
        }),
        final(state).config == old(state).config,
        final(state).processes == old(state).processes,
        final(state).project_cache == old(state).project_cache,
        final(state).docker_port_map == old(state).docker_port_map,
        final(state).brew_services_map == old(state).brew_services_map,
        final(state).windows_services_map == old(state).windows_services_map,
{
    let mut message = String::from_str("Failed to save config: ");
    message.append(reason);
    state.last_feedback = Some(KillFeedback::error(message));
}


} // verus!
