//! Which desktop notifications a change of listeners calls for.

use crate::model::{AppState, Platform, ProcessInfo, ProjectInfo};
use crate::text::{decimal, push_range, push_signed, to_chars};
use std::collections::HashMap;
use vstd::prelude::*;

verus! {

/// The longest command shown in a notification, in characters.
pub const MAX_COMMAND_CHARS: usize = 40;

/// A notification to show.
#[derive(Clone, Debug)]
pub struct Notification {
    pub title: String,
    pub body: String,
}

impl View for Notification {
    type V = (Seq<char>, Seq<char>);

    open spec fn view(&self) -> (Seq<char>, Seq<char>) {
        (self.title@, self.body@)
    }
}

/// The views of a list of notifications, in order.
pub open spec fn notes(list: Seq<Notification>) -> Seq<(Seq<char>, Seq<char>)> {
    list.map_values(|n: Notification| n@)
}

/// A command cut to at most `max` characters, the last three of them dots
/// where something was cut off.
pub open spec fn truncated(command: Seq<char>, max: int) -> Seq<char> {
    if command.len() <= max {
        command
    } else if max >= 3 {
        command.take(max - 3) + "..."@
    } else {
        "..."@
    }
}

/// What separates the process from its project in the body.
pub open spec fn project_separator(platform: Platform) -> Seq<char> {
    match platform {
        Platform::MacOs => " \u{2022} "@,
        Platform::Windows => " \u{e2}\u{20ac}\u{a2} "@,
    }
}

/// The title of the notification about a port.
pub open spec fn note_title(port: int, started: bool) -> Seq<char> {
    if started {
        "Port "@ + decimal(port) + " Started"@
    } else {
        "Port "@ + decimal(port) + " Stopped"@
    }
}

/// The body of the notification about a listener: its command, its pid in
/// brackets and, where known, the project it belongs to.
pub open spec fn note_body(
    command: Seq<char>,
    pid: int,
    project: Option<Seq<char>>,
    platform: Platform,
) -> Seq<char> {
    let base = truncated(command, MAX_COMMAND_CHARS as int) + " ("@ + decimal(pid) + ")"@;
    match project {
        Some(name) => base + project_separator(platform) + name,
        None => base,
    }
}

/// The name of the project that `pid` is known to belong to.
pub open spec fn project_of(cache: Map<i32, ProjectInfo>, pid: i32) -> Option<Seq<char>> {
    if cache.contains_key(pid) {
        Some(cache[pid].name@)
    } else {
        None
    }
}

/// The notification about one listener.
pub open spec fn note_for(
    record: ProcessInfo,
    started: bool,
    cache: Map<i32, ProjectInfo>,
    platform: Platform,
) -> (Seq<char>, Seq<char>) {
    (
        note_title(record.port as int, started),
        note_body(record.command@, record.pid as int, project_of(cache, record.pid), platform),
    )
}

/// Whether some record listens on `port`.
pub open spec fn has_port(records: Seq<ProcessInfo>, port: u16) -> bool {
    exists|i: int| 0 <= i < records.len() && (#[trigger] records[i]).port == port
}

/// One notification for every port of `now` that `then` does not hold, in
/// the order in which the ports first occur in `now`, each about the first
/// listener on its port.
pub open spec fn notes_for_new_ports(
    now: Seq<ProcessInfo>,
    then: Seq<ProcessInfo>,
    started: bool,
    cache: Map<i32, ProjectInfo>,
    platform: Platform,
) -> Seq<(Seq<char>, Seq<char>)>
    decreases now.len(),
{
    if now.len() == 0 {
        Seq::<(Seq<char>, Seq<char>)>::empty()
    } else {
        let before = notes_for_new_ports(now.drop_last(), then, started, cache, platform);
        if !has_port(then, now.last().port) && !has_port(now.drop_last(), now.last().port) {
            before.push(note_for(now.last(), started, cache, platform))
        } else {
            before
        }
    }
}

/// The notifications that a change from `previous` to the listeners of
/// `state` calls for: none when notifications are switched off; otherwise
/// one for every port that began to listen, then one for every port that
/// stopped.
pub open spec fn change_notes(state: AppState, previous: Seq<ProcessInfo>, platform: Platform) -> Seq<
    (Seq<char>, Seq<char>),
> {
    if !state.config.notifications.enabled {
        Seq::<(Seq<char>, Seq<char>)>::empty()
    } else {
        notes_for_new_ports(state.processes@, previous, true, state.project_cache@, platform)
            + notes_for_new_ports(
            previous,
            state.processes@,
            false,
            state.project_cache@,
            platform,
        )
    }
}

/// Appends `command` to `text`, cut to at most `max` characters.
pub fn push_truncated(text: &mut String, command: &str, max: usize)
    ensures
        final(text)@ == old(text)@ + truncated(command@, max as int),
{
    let chars = to_chars(command);
    if chars.len() <= max {
        text.append(command);
    } else if max >= 3 {
        push_range(text, &chars, 0, max - 3);
        text.append("...");
        assert(chars@.subrange(0, max - 3) =~= chars@.take(max - 3));
        assert(text@ =~= old(text)@ + truncated(command@, max as int));
    } else {
        text.append("...");
    }
}

/// The notification about one listener.
pub fn format_notification(
    record: &ProcessInfo,
    started: bool,
    cache: &HashMap<i32, ProjectInfo>,
    platform: Platform,
) -> (note: Notification)
    ensures
        note@ == note_for(*record, started, cache@, platform),
{
    broadcast use vstd::std_specs::hash::group_hash_axioms;

    let mut title = String::from_str("Port ");
    push_signed(&mut title, record.port as i64);
    if started {
        title.append(" Started");
    } else {
        title.append(" Stopped");
    }
    let mut body = String::new();
    push_truncated(&mut body, record.command.as_str(), MAX_COMMAND_CHARS);
    body.append(" (");
    push_signed(&mut body, record.pid as i64);
    body.append(")");
    match cache.get(&record.pid) {
        Some(project) => {
            match platform {
                Platform::MacOs => {
                    body.append(" \u{2022} ");
                },
                Platform::Windows => {
                    body.append(" \u{e2}\u{20ac}\u{a2} ");
                },
            }
            body.append(project.name.as_str());
        },
        None => {},
    }
    proof {
        let base = truncated(record.command@, MAX_COMMAND_CHARS as int) + " ("@ + decimal(
            record.pid as int,
        ) + ")"@;
        if cache@.contains_key(record.pid) {
            assert(body@ =~= base + project_separator(platform) + cache@[record.pid].name@);
        } else {
            assert(body@ =~= base);
        }
    }
    Notification { title, body }
}

fn listens_on(records: &[ProcessInfo], upto: usize, port: u16) -> (found: bool)
    requires
        upto <= records.len(),
    ensures
        found == has_port(records@.take(upto as int), port),
{
    let mut i: usize = 0;
    while i < upto
        invariant
            i <= upto <= records.len(),
            forall|k: int| 0 <= k < i ==> (#[trigger] records@[k]).port != port,
        decreases upto - i,
    {
        if records[i].port == port {
            assert(records@.take(upto as int)[i as int].port == port);
            return true;
        }
        i = i + 1;
    }
    assert forall|k: int| 0 <= k < records@.take(upto as int).len() implies (#[trigger] records@.take(
        upto as int,
    )[k]).port != port by {
        assert(records@.take(upto as int)[k] == records@[k]);
    }
    false
}

fn push_notes_for_new_ports(
    list: &mut Vec<Notification>,
    now: &[ProcessInfo],
    then: &[ProcessInfo],
    started: bool,
    cache: &HashMap<i32, ProjectInfo>,
    platform: Platform,
)
    ensures
        notes(final(list)@) == notes(old(list)@) + notes_for_new_ports(
            now@,
            then@,
            started,
            cache@,
            platform,
        ),
{
    let mut i: usize = 0;
    proof {
        assert(now@.take(0) =~= Seq::<ProcessInfo>::empty());
        assert(notes(list@) + Seq::<(Seq<char>, Seq<char>)>::empty() =~= notes(list@));
    }
    while i < now.len()
        invariant
            i <= now.len(),
            notes(list@) == notes(old(list)@) + notes_for_new_ports(
                now@.take(i as int),
                then@,
                started,
                cache@,
                platform,
            ),
        decreases now.len() - i,
    {
        proof {
            assert(now@.take(i + 1).drop_last() =~= now@.take(i as int));
            assert(now@.take(i + 1).last() == now@[i as int]);
            assert(then@.take(then.len() as int) =~= then@);
        }
        let port = now[i].port;
        if !listens_on(then, then.len(), port) && !listens_on(now, i, port) {
            let note = format_notification(&now[i], started, cache, platform);
            let ghost before = notes(list@);
            list.push(note);
            assert(notes(list@) =~= before.push(note@));
            assert(notes(list@) =~= notes(old(list)@) + notes_for_new_ports(
                now@.take(i + 1),
                then@,
                started,
                cache@,
                platform,
            ));
        }
        i = i + 1;
    }
    assert(now@.take(now.len() as int) =~= now@);
}

/// The notifications that the change from `prev` to the listeners of `state`
/// calls for: one for each port that began to listen, then one for each port
/// that stopped; none while notifications are switched off.
pub fn maybe_notify_changes(state: &AppState, prev: &[ProcessInfo], platform: Platform) -> (list:
    Vec<Notification>)
    ensures
        notes(list@) == change_notes(*state, prev@, platform),
{
    let mut list: Vec<Notification> = Vec::new();
    assert(notes(list@) =~= Seq::<(Seq<char>, Seq<char>)>::empty());
    if !state.config.notifications.enabled {
        return list;
    }
    push_notes_for_new_ports(
        &mut list,
        state.processes.as_slice(),
        prev,
        true,
        &state.project_cache,
        platform,
    );
    push_notes_for_new_ports(
        &mut list,
        prev,
        state.processes.as_slice(),
        false,
        &state.project_cache,
        platform,
    );
    assert(notes(list@) =~= change_notes(*state, prev@, platform));
    list
}

/// The notification shown when the application starts: there is none, the
/// icon in the menu bar is notice enough.
pub fn notify_startup() -> (note: Option<Notification>)
    ensures
        note.is_none(),
{
    None
}

/// A text made safe to stand between single quotes in a PowerShell script:
/// every single quote and every backtick is doubled.
pub open spec fn quoted_for_powershell(text: Seq<char>) -> Seq<char>
    decreases text.len(),
{
    if text.len() == 0 {
        Seq::<char>::empty()
    } else if text.last() == '\'' || text.last() == '`' {
        quoted_for_powershell(text.drop_last()).push(text.last()).push(text.last())
    } else {
        quoted_for_powershell(text.drop_last()).push(text.last())
    }
}

/// Doubles every single quote and every backtick of `text`, so that it can
/// stand between single quotes in a PowerShell script.
pub fn escape_powershell(text: &str) -> (safe: String)
    ensures
        safe@ == quoted_for_powershell(text@),
{
    let chars = to_chars(text);
    let mut safe = String::new();
    let mut i: usize = 0;
    assert(chars@.take(0) =~= Seq::<char>::empty());
    while i < chars.len()
        invariant
            i <= chars.len(),
            chars@ == text@,
            safe@ == quoted_for_powershell(chars@.take(i as int)),
        decreases chars.len() - i,
    {
        let c = chars[i];
        proof {
            assert(chars@.take(i + 1).drop_last() =~= chars@.take(i as int));
            assert(chars@.take(i + 1).last() == c);
        }
        crate::text::push_char(&mut safe, c);
        if c == '\'' || c == '`' {
            crate::text::push_char(&mut safe, c);
        }
        i = i + 1;
    }
    assert(chars@.take(chars.len() as int) =~= chars@);
    safe
}


} // verus!
