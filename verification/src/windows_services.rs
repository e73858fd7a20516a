//! Windows services that commonly hold developer ports: which listener
//! belongs to one, what `sc query` says of one, and the feedback for
//! stopping one.

use crate::model::{Feedback, FeedbackSeverity, KillFeedback, ToolReport};
use crate::services::{entered, str_equal, ServiceTable};
use crate::text::{
    contains_str, has_substring, lowercase, to_chars, to_lowercase, trim, trim_range,
    push_range, views,
};
use vstd::prelude::*;

verus! {

/// The families of services that are looked for.
#[derive(Clone, Copy, Debug, PartialEq, Eq, Structural)]
pub enum ServiceKind {
    Postgres,
    MySql,
    SqlServer,
    Redis,
    Mongo,
}

/// The names of the services that are asked about, in order.
pub open spec fn candidate_names() -> Seq<Seq<char>> {
    seq![
        "postgresql-x64-16"@,
        "postgresql-x64-15"@,
        "postgresql-x64-14"@,
        "postgresql-x64-13"@,
        "postgresql"@,
        "MySQL80"@,
        "MySQL57"@,
        "MySQL"@,
        "MSSQLSERVER"@,
        "MSSQL$SQLEXPRESS"@,
        "SQLAgent$SQLEXPRESS"@,
        "Redis"@,
        "MongoDB"@,
    ]
}

/// The names of the services that are asked about, in order.
pub fn candidate_services() -> (names: Vec<String>)
    ensures
        views(names@) == candidate_names(),
{
    let mut names: Vec<String> = Vec::new();
    names.push(String::from_str("postgresql-x64-16"));
    names.push(String::from_str("postgresql-x64-15"));
    names.push(String::from_str("postgresql-x64-14"));
    names.push(String::from_str("postgresql-x64-13"));
    names.push(String::from_str("postgresql"));
    names.push(String::from_str("MySQL80"));
    names.push(String::from_str("MySQL57"));
    names.push(String::from_str("MySQL"));
    names.push(String::from_str("MSSQLSERVER"));
    names.push(String::from_str("MSSQL$SQLEXPRESS"));
    names.push(String::from_str("SQLAgent$SQLEXPRESS"));
    names.push(String::from_str("Redis"));
    names.push(String::from_str("MongoDB"));
    assert(views(names@) =~= candidate_names());
    names
}

/// The status that the answer to a query shows.
pub open spec fn shown_status(report: ToolReport) -> Option<Seq<char>> {
    match report {
        ToolReport::NotStarted { reason } => None,
        ToolReport::Exited { success, stdout, stderr } => if has_substring(stdout@, "RUNNING"@) {
            Some("running"@)
        } else if has_substring(stdout@, "STOPPED"@) {
            Some("stopped"@)
        } else if has_substring(stdout@, "PENDING"@) {
            Some("pending"@)
        } else {
            None
        },
    }
}

/// The status of a service, by the report of `sc query` for it: `running`,
/// `stopped` or `pending`, or `None` where the report names none of them.
pub fn get_service_status(report: &ToolReport) -> (status: Option<String>)
    ensures
        shown_status(*report) == (match status {
            Some(text) => Some(text@),
            None => None,
        }),
{
    match report {
        ToolReport::NotStarted { reason } => None,
        ToolReport::Exited { success, stdout, stderr } => {
            let out = to_chars(stdout.as_str());
            if contains_str(&out, "RUNNING") {
                Some(String::from_str("running"))
            } else if contains_str(&out, "STOPPED") {
                Some(String::from_str("stopped"))
            } else if contains_str(&out, "PENDING") {
                Some(String::from_str("pending"))
            } else {
                None
            }
        },
    }
}

/// The table that the answers to a list of queries describe: every service
/// whose answer shows a status is entered with it.
pub open spec fn queried_services(answers: Seq<(String, ToolReport)>) -> Seq<
    (Seq<char>, Seq<char>),
>
    decreases answers.len(),
{
    if answers.len() == 0 {
        Seq::<(Seq<char>, Seq<char>)>::empty()
    } else {
        let before = queried_services(answers.drop_last());
        match shown_status(answers.last().1) {
            Some(status) => entered(before, answers.last().0@, status),
            None => before,
        }
    }
}

/// Builds the table of services from the answers to `sc query`, one answer
/// per service asked about.
pub fn query_windows_services_map(answers: &Vec<(String, ToolReport)>) -> (table: ServiceTable)
    ensures
        table@ == queried_services(answers@),
{
    let mut table = ServiceTable::new();
    let mut i: usize = 0;
    assert(answers@.take(0) =~= Seq::<(String, ToolReport)>::empty());
    assert(table@ =~= Seq::<(Seq<char>, Seq<char>)>::empty());
    while i < answers.len()
        invariant
            i <= answers.len(),
            table@ == queried_services(answers@.take(i as int)),
        decreases answers.len() - i,
    {
        proof {
            assert(answers@.take(i + 1).drop_last() =~= answers@.take(i as int));
            assert(answers@.take(i + 1).last() == answers@[i as int]);
        }
        match get_service_status(&answers[i].1) {
            Some(status) => {
                table.insert(answers[i].0.clone(), status);
            },
            None => {},
        }
        i = i + 1;
    }
    assert(answers@.take(answers.len() as int) =~= answers@);
    table
}

/// The family that a command, written in lowercase, belongs to.
pub open spec fn kind_of_command(lower: Seq<char>) -> Option<ServiceKind> {
    if has_substring(lower, "postgres"@) {
        Some(ServiceKind::Postgres)
    } else if has_substring(lower, "mysqld"@) || has_substring(lower, "mysql"@) {
        Some(ServiceKind::MySql)
    } else if has_substring(lower, "sqlservr"@) {
        Some(ServiceKind::SqlServer)
    } else if has_substring(lower, "redis-server"@) || has_substring(lower, "redis"@) {
        Some(ServiceKind::Redis)
    } else if has_substring(lower, "mongod"@) {
        Some(ServiceKind::Mongo)
    } else {
        None
    }
}

/// Whether a service name, written in lowercase, belongs to a family.
pub open spec fn name_is_of_kind(kind: ServiceKind, lower: Seq<char>) -> bool {
    match kind {
        ServiceKind::Postgres => has_substring(lower, "postgresql"@),
        ServiceKind::MySql => has_substring(lower, "mysql"@),
        ServiceKind::SqlServer => has_substring(lower, "mssqlserver"@) || has_substring(
            lower,
            "mssql$"@,
        ),
        ServiceKind::Redis => has_substring(lower, "redis"@),
        ServiceKind::Mongo => has_substring(lower, "mongodb"@),
    }
}

/// The port on which a service listens unless told otherwise, by its name
/// in lowercase.
pub open spec fn default_port(lower: Seq<char>) -> Option<int> {
    if has_substring(lower, "postgres"@) {
        Some(5432)
    } else if has_substring(lower, "mysql"@) {
        Some(3306)
    } else if has_substring(lower, "mssql"@) {
        Some(1433)
    } else if has_substring(lower, "redis"@) {
        Some(6379)
    } else if has_substring(lower, "mongodb"@) {
        Some(27017)
    } else {
        None
    }
}

/// The first service of the table that is running and belongs to `kind`.
pub open spec fn first_running(table: Seq<(Seq<char>, Seq<char>)>, kind: ServiceKind) -> Option<
    Seq<char>,
>
    decreases table.len(),
{
    if table.len() == 0 {
        None
    } else if table[0].1 == "running"@ && name_is_of_kind(kind, lowercase(table[0].0)) {
        Some(table[0].0)
    } else {
        first_running(table.drop_first(), kind)
    }
}

/// The service that manages a listener: the first running service of the
/// family its command belongs to, if the listener is on that service's
/// default port.
pub open spec fn windows_managed(
    lower: Seq<char>,
    port: int,
    table: Seq<(Seq<char>, Seq<char>)>,
) -> Option<Seq<char>> {
    match kind_of_command(lower) {
        Some(kind) => match first_running(table, kind) {
            Some(service) => if default_port(lowercase(service)) == Some(port) {
                Some(service)
            } else {
                None
            },
            None => None,
        },
        None => None,
    }
}

/// The family that a command belongs to, given the command in lowercase.
pub fn service_kind(lower: &Vec<char>) -> (kind: Option<ServiceKind>)
    ensures
        kind == kind_of_command(lower@),
{
    if contains_str(lower, "postgres") {
        Some(ServiceKind::Postgres)
    } else if contains_str(lower, "mysqld") || contains_str(lower, "mysql") {
        Some(ServiceKind::MySql)
    } else if contains_str(lower, "sqlservr") {
        Some(ServiceKind::SqlServer)
    } else if contains_str(lower, "redis-server") || contains_str(lower, "redis") {
        Some(ServiceKind::Redis)
    } else if contains_str(lower, "mongod") {
        Some(ServiceKind::Mongo)
    } else {
        None
    }
}

/// Whether a service belongs to a family, given its name in lowercase.
pub fn name_matches_kind(kind: ServiceKind, lower: &Vec<char>) -> (matches: bool)
    ensures
        matches == name_is_of_kind(kind, lower@),
{
    match kind {
        ServiceKind::Postgres => contains_str(lower, "postgresql"),
        ServiceKind::MySql => contains_str(lower, "mysql"),
        ServiceKind::SqlServer => contains_str(lower, "mssqlserver") || contains_str(
            lower,
            "mssql$",
        ),
        ServiceKind::Redis => contains_str(lower, "redis"),
        ServiceKind::Mongo => contains_str(lower, "mongodb"),
    }
}

/// The default port of a service, given its name in lowercase.
pub fn default_port_of(lower: &Vec<char>) -> (port: Option<u16>)
    ensures
        default_port(lower@) == (match port {
            Some(p) => Some(p as int),
            None => None,
        }),
{
    if contains_str(lower, "postgres") {
        Some(5432)
    } else if contains_str(lower, "mysql") {
        Some(3306)
    } else if contains_str(lower, "mssql") {
        Some(1433)
    } else if contains_str(lower, "redis") {
        Some(6379)
    } else if contains_str(lower, "mongodb") {
        Some(27017)
    } else {
        None
    }
}

/// The default port of a service.
pub fn get_default_port_for_service(service: &str) -> (port: Option<u16>)
    ensures
        default_port(lowercase(service@)) == (match port {
            Some(p) => Some(p as int),
            None => None,
        }),
{
    let lower = to_lowercase(service);
    let chars = to_chars(lower.as_str());
    default_port_of(&chars)
}

/// The first service of the table that is running and belongs to `kind`.
pub fn find_running_service(table: &ServiceTable, kind: ServiceKind) -> (service: Option<String>)
    ensures
        first_running(table@, kind) == (match service {
            Some(name) => Some(name@),
            None => None,
        }),
{
    let mut i: usize = 0;
    assert(table@.skip(0) =~= table@);
    while i < table.entries.len()
        invariant
            i <= table.entries.len(),
            first_running(table@, kind) == first_running(table@.skip(i as int), kind),
        decreases table.entries.len() - i,
    {
        let ghost rest = table@.skip(i as int);
        proof {
            assert(rest[0] == table@[i as int]);
            assert(table@[i as int] == (table.entries@[i as int].0@, table.entries@[i as int].1@));
            assert(rest.drop_first() =~= table@.skip(i + 1));
        }
        if str_equal(table.entries[i].1.as_str(), "running") {
            let lower = to_lowercase(table.entries[i].0.as_str());
            let chars = to_chars(lower.as_str());
            if name_matches_kind(kind, &chars) {
                return Some(table.entries[i].0.clone());
            }
        }
        i = i + 1;
    }
    assert(table@.skip(table.entries.len() as int) =~= Seq::<(Seq<char>, Seq<char>)>::empty());
    None
}

/// The Windows service that manages the listener with command `cmd` on
/// `port`: the first running service of the family the command belongs to,
/// if `port` is that service's default port.
pub fn get_windows_managed_service(cmd: &str, port: u16, services_map: &ServiceTable) -> (service:
    Option<String>)
    ensures
        windows_managed(lowercase(cmd@), port as int, services_map@) == (match service {
            Some(name) => Some(name@),
            None => None,
        }),
{
    let lower = to_lowercase(cmd);
    let chars = to_chars(lower.as_str());
    match service_kind(&chars) {
        Some(kind) => match find_running_service(services_map, kind) {
            Some(service) => match get_default_port_for_service(service.as_str()) {
                Some(expected) => if expected == port {
                    Some(service)
                } else {
                    None
                },
                None => None,
            },
            None => None,
        },
        None => None,
    }
}

/// The name shown for a service, by its name and its name in lowercase.
pub open spec fn friendly_name(service: Seq<char>, lower: Seq<char>) -> Seq<char> {
    if has_substring(lower, "postgres"@) {
        "PostgreSQL"@
    } else if has_substring(lower, "mysql"@) {
        "MySQL"@
    } else if has_substring(lower, "mssql"@) {
        if has_substring(lower, "express"@) {
            "SQL Server Express"@
        } else {
            "SQL Server"@
        }
    } else if has_substring(lower, "redis"@) {
        "Redis"@
    } else if has_substring(lower, "mongodb"@) {
        "MongoDB"@
    } else {
        service
    }
}

/// The name shown for a service, given its name also in lowercase.
pub fn friendly_name_of(service: &str, lower: &Vec<char>) -> (name: String)
    ensures
        name@ == friendly_name(service@, lower@),
{
    if contains_str(lower, "postgres") {
        String::from_str("PostgreSQL")
    } else if contains_str(lower, "mysql") {
        String::from_str("MySQL")
    } else if contains_str(lower, "mssql") {
        if contains_str(lower, "express") {
            String::from_str("SQL Server Express")
        } else {
            String::from_str("SQL Server")
        }
    } else if contains_str(lower, "redis") {
        String::from_str("Redis")
    } else if contains_str(lower, "mongodb") {
        String::from_str("MongoDB")
    } else {
        String::from_str(service)
    }
}

/// The name shown for a service: the product's name for the families that
/// are known, the service's own name otherwise.
pub fn friendly_service_name(service: &str) -> (name: String)
    ensures
        name@ == friendly_name(service@, lowercase(service@)),
{
    let lower = to_lowercase(service);
    let chars = to_chars(lower.as_str());
    friendly_name_of(service, &chars)
}

/// What the tool printed about a failure: its error output, or its
/// ordinary output when it printed no error.
pub open spec fn failure_output(stdout: Seq<char>, stderr: Seq<char>) -> Seq<char> {
    if stderr.len() == 0 {
        stdout
    } else {
        stderr
    }
}

/// The feedback for stopping a service, by the report of the tool.
pub open spec fn service_stop_feedback(service: Seq<char>, report: ToolReport) -> Feedback {
    match report {
        ToolReport::NotStarted { reason } => Feedback {
            message: "Service control error: "@ + reason@,
            severity: FeedbackSeverity::Error,
        },
        ToolReport::Exited { success, stdout, stderr } => {
            let output = failure_output(stdout@, stderr@);
            if success {
                Feedback {
                    message: "Stopped service "@ + service + "."@,
                    severity: FeedbackSeverity::Info,
                }
            } else if has_substring(output, "Access is denied"@) || has_substring(output, "5)"@) {
                Feedback {
                    message: "Access denied stopping "@ + service + ". Run as Administrator."@,
                    severity: FeedbackSeverity::Error,
                }
            } else if has_substring(output, "not started"@) || has_substring(output, "1062)"@) {
                Feedback {
                    message: "Service "@ + service + " is not running."@,
                    severity: FeedbackSeverity::Warning,
                }
            } else {
                Feedback {
                    message: "Failed to stop "@ + service + ": "@ + trim(output),
                    severity: FeedbackSeverity::Error,
                }
            }
        },
    }
}

/// The feedback for a request to stop `service`, given the report of
/// `sc stop`.
pub fn run_service_stop(service: &str, report: &ToolReport) -> (feedback: KillFeedback)
    ensures
        feedback@ == service_stop_feedback(service@, *report),
{
    match report {
        ToolReport::NotStarted { reason } => {
            let mut message = String::from_str("Service control error: ");
            message.append(reason.as_str());
            KillFeedback::error(message)
        },
        ToolReport::Exited { success, stdout, stderr } => {
            if *success {
                let mut message = String::from_str("Stopped service ");
                message.append(service);
                message.append(".");
                return KillFeedback::info(message);
            }
            let errors = to_chars(stderr.as_str());
            let output = if errors.len() == 0 {
                to_chars(stdout.as_str())
            } else {
                errors
            };
            if contains_str(&output, "Access is denied") || contains_str(&output, "5)") {
                let mut message = String::from_str("Access denied stopping ");
                message.append(service);
                message.append(". Run as Administrator.");
                KillFeedback::error(message)
            } else if contains_str(&output, "not started") || contains_str(&output, "1062)") {
                let mut message = String::from_str("Service ");
                message.append(service);
                message.append(" is not running.");
                KillFeedback::warning(message)
            } else {
                let mut message = String::from_str("Failed to stop ");
                message.append(service);
                message.append(": ");
                let (from, to) = trim_range(&output, 0, output.len());
                assert(output@.subrange(0, output.len() as int) =~= output@);
                push_range(&mut message, &output, from, to);
                KillFeedback::error(message)
            }
        },
    }
}

} // verus!
