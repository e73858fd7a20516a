//! Services managed by Homebrew: which listener belongs to one, the table
//! that `brew services list` prints, and the feedback for stopping one.

use crate::model::{Feedback, FeedbackSeverity, KillFeedback, ToolReport};
use crate::services::{entered, status_of, str_equal, ServiceTable};
use crate::text::{
    contains_str, from_chars, has_substring, lowercase, pieces, split, split_chars, split_words,
    to_chars, to_lowercase, words,
};
use vstd::prelude::*;

verus! {

/// The service that a command, written in lowercase, belongs to.
pub open spec fn brew_service_for(lower: Seq<char>) -> Option<Seq<char>> {
    if has_substring(lower, "redis"@) {
        Some("redis"@)
    } else if has_substring(lower, "postgres"@) {
        Some("postgresql"@)
    } else if has_substring(lower, "mysqld"@) || has_substring(lower, "mysql"@) {
        Some("mysql"@)
    } else if has_substring(lower, "mongod"@) {
        Some("mongodb-community"@)
    } else {
        None
    }
}

/// The port on which a service listens unless told otherwise.
pub open spec fn brew_default_port(service: Seq<char>) -> Option<int> {
    if service == "redis"@ {
        Some(6379)
    } else if service == "postgresql"@ {
        Some(5432)
    } else if service == "mysql"@ {
        Some(3306)
    } else if service == "mongodb-community"@ {
        Some(27017)
    } else {
        None
    }
}

/// The service that manages a listener: the one its command belongs to, if
/// that service is started and the listener is on its default port.
pub open spec fn brew_managed(
    lower: Seq<char>,
    port: int,
    table: Seq<(Seq<char>, Seq<char>)>,
) -> Option<Seq<char>> {
    match brew_service_for(lower) {
        Some(service) => if status_of(table, service) == Some("started"@) && brew_default_port(
            service,
        ) == Some(port) {
            Some(service)
        } else {
            None
        },
        None => None,
    }
}

/// The service that a command belongs to, given the command in lowercase.
pub fn map_brew_service(lower: &Vec<char>) -> (service: Option<String>)
    ensures
        brew_service_for(lower@) == (match service {
            Some(name) => Some(name@),
            None => None,
        }),
{
    if contains_str(lower, "redis") {
        Some(String::from_str("redis"))
    } else if contains_str(lower, "postgres") {
        Some(String::from_str("postgresql"))
    } else if contains_str(lower, "mysqld") || contains_str(lower, "mysql") {
        Some(String::from_str("mysql"))
    } else if contains_str(lower, "mongod") {
        Some(String::from_str("mongodb-community"))
    } else {
        None
    }
}

/// The service that a command belongs to, whatever its case.
pub fn map_brew_service_from_cmd(cmd: &str) -> (service: Option<String>)
    ensures
        brew_service_for(lowercase(cmd@)) == (match service {
            Some(name) => Some(name@),
            None => None,
        }),
{
    let lower = to_lowercase(cmd);
    let chars = to_chars(lower.as_str());
    map_brew_service(&chars)
}

/// The port on which a service listens unless told otherwise.
pub fn get_default_port_for_service(service: &str) -> (port: Option<u16>)
    ensures
        brew_default_port(service@) == (match port {
            Some(p) => Some(p as int),
            None => None,
        }),
{
    if str_equal(service, "redis") {
        Some(6379)
    } else if str_equal(service, "postgresql") {
        Some(5432)
    } else if str_equal(service, "mysql") {
        Some(3306)
    } else if str_equal(service, "mongodb-community") {
        Some(27017)
    } else {
        None
    }
}

/// The service that manages a listener, given its command in lowercase.
pub fn managed_brew_service(lower: &Vec<char>, port: u16, table: &ServiceTable) -> (service:
    Option<String>)
    ensures
        brew_managed(lower@, port as int, table@) == (match service {
            Some(name) => Some(name@),
            None => None,
        }),
{
    match map_brew_service(lower) {
        Some(service) => {
            let started = match table.get(service.as_str()) {
                Some(status) => str_equal(status.as_str(), "started"),
                None => false,
            };
            if started {
                match get_default_port_for_service(service.as_str()) {
                    Some(expected) => if expected == port {
                        Some(service)
                    } else {
                        None
                    },
                    None => None,
                }
            } else {
                None
            }
        },
        None => None,
    }
}

/// The Homebrew service that manages the listener with command `cmd` on
/// `port`: the service the command belongs to, if the table shows it as
/// started and `port` is its default port.
pub fn get_brew_managed_service(cmd: &str, port: u16, brew_services_map: &ServiceTable) -> (service:
    Option<String>)
    ensures
        brew_managed(lowercase(cmd@), port as int, brew_services_map@) == (match service {
            Some(name) => Some(name@),
            None => None,
        }),
{
    let lower = to_lowercase(cmd);
    let chars = to_chars(lower.as_str());
    managed_brew_service(&chars, port, brew_services_map)
}

/// The table that the lines of a service list describe. The first line is
/// the heading; every other line with at least two words enters the second
/// word as the status of the first.
pub open spec fn listed_services(lines: Seq<Seq<char>>) -> Seq<(Seq<char>, Seq<char>)>
    decreases lines.len(),
{
    if lines.len() <= 1 {
        Seq::<(Seq<char>, Seq<char>)>::empty()
    } else {
        let before = listed_services(lines.drop_last());
        let fields = words(lines.last());
        if fields.len() >= 2 {
            entered(before, fields[0], fields[1])
        } else {
            before
        }
    }
}

/// The table that a report of `brew services list` describes; empty when
/// the tool did not run or failed.
pub open spec fn brew_table(report: ToolReport) -> Seq<(Seq<char>, Seq<char>)> {
    match report {
        ToolReport::NotStarted { reason } => Seq::<(Seq<char>, Seq<char>)>::empty(),
        ToolReport::Exited { success, stdout, stderr } => if success {
            listed_services(split(stdout@, '\n'))
        } else {
            Seq::<(Seq<char>, Seq<char>)>::empty()
        },
    }
}

fn services_from_listing(listing: &str) -> (table: ServiceTable)
    ensures
        table@ == listed_services(split(listing@, '\n')),
{
    let chars = to_chars(listing);
    let lines = split_chars(&chars, '\n');
    let ghost all = pieces(lines@);
    let mut table = ServiceTable::new();
    if lines.len() <= 1 {
        assert(table@ =~= Seq::<(Seq<char>, Seq<char>)>::empty());
        return table;
    }
    let mut i: usize = 1;
    proof {
        assert(table@ =~= listed_services(all.take(1)));
    }
    while i < lines.len()
        invariant
            1 <= i <= lines.len(),
            all == pieces(lines@),
            table@ == listed_services(all.take(i as int)),
        decreases lines.len() - i,
    {
        proof {
            assert(all.take(i + 1).drop_last() =~= all.take(i as int));
            assert(all.take(i + 1).last() == lines@[i as int]@);
        }
        let fields = split_words(&lines[i]);
        if fields.len() >= 2 {
            proof {
                assert(pieces(fields@)[0] == fields@[0]@);
                assert(pieces(fields@)[1] == fields@[1]@);
            }
            table.insert(from_chars(&fields[0]), from_chars(&fields[1]));
        }
        i = i + 1;
    }
    assert(all.take(lines.len() as int) =~= all);
    table
}

/// Reads the report of `brew services list` into a table of service names
/// and their status. A tool that is missing or fails yields an empty table.
pub fn query_brew_services_map(report: &ToolReport) -> (table: ServiceTable)
    ensures
        table@ == brew_table(*report),
{
    match report {
        ToolReport::NotStarted { reason } => {
            let table = ServiceTable::new();
            assert(table@ =~= Seq::<(Seq<char>, Seq<char>)>::empty());
            table
        },
        ToolReport::Exited { success, stdout, stderr } => {
            if *success {
                services_from_listing(stdout.as_str())
            } else {
                let table = ServiceTable::new();
                assert(table@ =~= Seq::<(Seq<char>, Seq<char>)>::empty());
                table
            }
        },
    }
}

/// The feedback for stopping a service, by the report of the tool.
pub open spec fn brew_stop_feedback(service: Seq<char>, report: ToolReport) -> Feedback {
    match report {
        ToolReport::NotStarted { reason } => Feedback {
            message: "brew services error: "@ + reason@,
            severity: FeedbackSeverity::Error,
        },
        ToolReport::Exited { success, stdout, stderr } => if success {
            Feedback {
                message: "Stopped brew service "@ + service + "."@,
                severity: FeedbackSeverity::Info,
            }
        } else {
            Feedback {
                message: "Failed to stop brew service "@ + service + ": "@ + stderr@,
                severity: FeedbackSeverity::Error,
            }
        },
    }
}

/// The feedback for a request to stop `service`, given the report of
/// `brew services stop`.
pub fn run_brew_stop(service: &str, report: &ToolReport) -> (feedback: KillFeedback)
    ensures
        feedback@ == brew_stop_feedback(service@, *report),
{
    match report {
        ToolReport::NotStarted { reason } => {
            let mut message = String::from_str("brew services error: ");
            message.append(reason.as_str());
            KillFeedback::error(message)
        },
        ToolReport::Exited { success, stdout, stderr } => {
            if *success {
                let mut message = String::from_str("Stopped brew service ");
                message.append(service);
                message.append(".");
                KillFeedback::info(message)
            } else {
                let mut message = String::from_str("Failed to stop brew service ");
                message.append(service);
                message.append(": ");
                message.append(stderr.as_str());
                KillFeedback::error(message)
            }
        },
    }
}

} // verus!
