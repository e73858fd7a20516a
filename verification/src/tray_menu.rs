//! The entries of the tray menu: the ordinary processes, the containers and
//! the managed services, each under its own heading, followed by the
//! entries that are always there.

use crate::brew::{brew_managed, get_brew_managed_service};
use crate::menu::{
    collect_ports, pids_of, ports_of, port_texts, process_menu_id, process_menu_id_text,
};
use crate::model::{AppState, Platform, ProcessInfo, ProjectInfo};
use crate::notify::project_of;
use crate::reactor::{regular_of, regular_processes};
use crate::snapshot::{text_le, text_leq};
use crate::text::{
    decimal_digits, join, join_strings, lowercase, push_range, push_unsigned, to_chars, views,
};
use std::collections::HashMap;
use vstd::prelude::*;

verus! {

/// One line of the menu.
#[derive(Clone, Debug)]
pub enum MenuEntry {
    /// An entry with the identifier it reports when picked, its text, and
    /// whether it can be picked.
    Item { id: String, label: String, enabled: bool },
    /// A line between two groups of entries.
    Separator,
}

/// The mathematical content of a [`MenuEntry`].
pub enum Line {
    Item { id: Seq<char>, label: Seq<char>, enabled: bool },
    Separator,
}

impl View for MenuEntry {
    type V = Line;

    open spec fn view(&self) -> Line {
        match self {
            MenuEntry::Item { id, label, enabled } => Line::Item {
                id: id@,
                label: label@,
                enabled: *enabled,
            },
            MenuEntry::Separator => Line::Separator,
        }
    }
}

/// The views of a list of entries, in order.
pub open spec fn lines(list: Seq<MenuEntry>) -> Seq<Line> {
    list.map_values(|e: MenuEntry| e@)
}

/// The uppercase form of a character: what `char::to_uppercase` yields for
/// it, which may be more than one character.
pub uninterp spec fn uppercase_of(c: char) -> Seq<char>;

/// The uppercase form of `c`.
///
/// Trusted: wraps `char::to_uppercase` of the standard library, whose
/// result depends on the character alone; the contract gives that result
/// its name and says nothing more about it.
#[verifier::external_body]
fn char_to_uppercase(c: char) -> (upper: String)
    ensures
        upper@ == uppercase_of(c),
{
    c.to_uppercase().collect()
}

/// `s` without `prefix` at its start, however often it stands there.
pub open spec fn without_leading(s: Seq<char>, prefix: Seq<char>) -> Seq<char>
    decreases s.len(),
{
    if prefix.len() > 0 && prefix.is_prefix_of(s) {
        without_leading(s.skip(prefix.len() as int), prefix)
    } else {
        s
    }
}

/// The name of a container without the prefixes that say what it is for.
pub open spec fn bare_container_name(raw: Seq<char>) -> Seq<char> {
    without_leading(without_leading(without_leading(raw, "macport-"@), "test-"@), "dev-"@)
}

/// The name shown for a container: the product's name where it is a known
/// one, otherwise its bare name with the first letter in uppercase.
pub open spec fn friendly_container(raw: Seq<char>) -> Seq<char> {
    let name = bare_container_name(raw);
    if name == "postgres"@ || name == "postgresql"@ {
        "PostgreSQL"@
    } else if name == "mongo"@ || name == "mongodb"@ {
        "MongoDB"@
    } else if name == "redis"@ {
        "Redis"@
    } else if name == "mysql"@ {
        "MySQL"@
    } else if name == "nginx"@ {
        "Nginx"@
    } else if name == "rabbitmq"@ {
        "RabbitMQ"@
    } else if name == "elasticsearch"@ {
        "Elasticsearch"@
    } else if name == "memcached"@ {
        "Memcached"@
    } else if name.len() == 0 {
        name
    } else {
        uppercase_of(name[0]) + name.skip(1)
    }
}

fn skip_leading(v: &Vec<char>, from: usize, prefix: &str) -> (start: usize)
    requires
        from <= v.len(),
    ensures
        from <= start <= v.len(),
        v@.skip(start as int) == without_leading(v@.skip(from as int), prefix@),
{
    let pattern = to_chars(prefix);
    let mut start: usize = from;
    if pattern.len() == 0 {
        return start;
    }
    while v.len() - start >= pattern.len() && crate::text::occurs_at(v, &pattern, start)
        invariant
            from <= start <= v.len(),
            pattern@ == prefix@,
            pattern.len() > 0,
            without_leading(v@.skip(from as int), prefix@) == without_leading(
                v@.skip(start as int),
                prefix@,
            ),
        decreases v.len() - start,
    {
        proof {
            let rest = v@.skip(start as int);
            assert(rest.subrange(0, pattern.len() as int) =~= v@.subrange(
                start as int,
                start + pattern.len(),
            ));
            assert(rest.skip(pattern.len() as int) =~= v@.skip(start + pattern.len()));
        }
        start = start + pattern.len();
    }
    proof {
        let rest = v@.skip(start as int);
        if rest.len() >= pattern.len() {
            assert(rest.subrange(0, pattern.len() as int) =~= v@.subrange(
                start as int,
                start + pattern.len(),
            ));
        }
    }
    start
}

fn range_is(v: &Vec<char>, from: usize, word: &str) -> (same: bool)
    requires
        from <= v.len(),
    ensures
        same == (v@.skip(from as int) == word@),
{
    let pattern = to_chars(word);
    if v.len() - from != pattern.len() {
        return false;
    }
    let same = crate::text::occurs_at(v, &pattern, from);
    assert(v@.subrange(from as int, from + pattern.len()) =~= v@.skip(from as int));
    same
}

/// The name shown for a container.
pub fn friendly_container_name(raw_name: &str) -> (shown: String)
    ensures
        shown@ == friendly_container(raw_name@),
{
    let raw = to_chars(raw_name);
    assert(raw@.skip(0) =~= raw@);
    let a = skip_leading(&raw, 0, "macport-");
    let b = skip_leading(&raw, a, "test-");
    let from = skip_leading(&raw, b, "dev-");
    let ghost name = raw@.skip(from as int);
    if range_is(&raw, from, "postgres") || range_is(&raw, from, "postgresql") {
        String::from_str("PostgreSQL")
    } else if range_is(&raw, from, "mongo") || range_is(&raw, from, "mongodb") {
        String::from_str("MongoDB")
    } else if range_is(&raw, from, "redis") {
        String::from_str("Redis")
    } else if range_is(&raw, from, "mysql") {
        String::from_str("MySQL")
    } else if range_is(&raw, from, "nginx") {
        String::from_str("Nginx")
    } else if range_is(&raw, from, "rabbitmq") {
        String::from_str("RabbitMQ")
    } else if range_is(&raw, from, "elasticsearch") {
        String::from_str("Elasticsearch")
    } else if range_is(&raw, from, "memcached") {
        String::from_str("Memcached")
    } else if from == raw.len() {
        let shown = String::new();
        assert(name =~= Seq::<char>::empty());
        shown
    } else {
        let mut shown = char_to_uppercase(raw[from]);
        push_range(&mut shown, &raw, from + 1, raw.len());
        proof {
            assert(name[0] == raw@[from as int]);
            assert(name.skip(1) =~= raw@.subrange(from + 1, raw.len() as int));
            assert(shown@ =~= uppercase_of(name[0]) + name.skip(1));
        }
        shown
    }
}

/// An ascending list of names with `name` put in at its place, unless it is
/// there already.
pub open spec fn with_name(sorted: Seq<Seq<char>>, name: Seq<char>) -> Seq<Seq<char>>
    decreases sorted.len(),
{
    if sorted.len() == 0 || (sorted.last() != name && text_leq(sorted.last(), name)) {
        sorted.push(name)
    } else if sorted.last() == name {
        sorted
    } else {
        with_name(sorted.drop_last(), name).push(sorted.last())
    }
}

/// An ascending list of ports with `port` put in at its place, also where
/// it is there already.
pub open spec fn with_port_again(sorted: Seq<u16>, port: u16) -> Seq<u16>
    decreases sorted.len(),
{
    if sorted.len() == 0 || sorted.last() <= port {
        sorted.push(port)
    } else {
        with_port_again(sorted.drop_last(), port).push(sorted.last())
    }
}

/// The names that occur among the keys, ascending, each once.
pub open spec fn group_names(keys: Seq<Option<Seq<char>>>) -> Seq<Seq<char>>
    decreases keys.len(),
{
    if keys.len() == 0 {
        Seq::<Seq<char>>::empty()
    } else {
        match keys.last() {
            Some(name) => with_name(group_names(keys.drop_last()), name),
            None => group_names(keys.drop_last()),
        }
    }
}

/// The ports of the first `upto` records whose key is `name`, ascending,
/// each as often as it occurs.
pub open spec fn group_ports(
    records: Seq<ProcessInfo>,
    keys: Seq<Option<Seq<char>>>,
    name: Seq<char>,
    upto: int,
) -> Seq<u16>
    decreases upto,
{
    if upto <= 0 {
        Seq::<u16>::empty()
    } else if keys[upto - 1] == Some(name) {
        with_port_again(group_ports(records, keys, name, upto - 1), records[upto - 1].port)
    } else {
        group_ports(records, keys, name, upto - 1)
    }
}

/// For every record, the container that publishes its port, if any.
pub open spec fn docker_keys(state: AppState) -> Seq<Option<Seq<char>>> {
    state.processes@.map_values(
        |r: ProcessInfo|
            if state.docker_port_map@.contains_key(r.port) {
                Some(state.docker_port_map@[r.port].name@)
            } else {
                None
            },
    )
}

/// For every record that no container accounts for, the Homebrew service
/// that manages it, if any.
pub open spec fn brew_keys(state: AppState) -> Seq<Option<Seq<char>>> {
    state.processes@.map_values(
        |r: ProcessInfo|
            if state.docker_port_map@.contains_key(r.port) {
                None
            } else {
                brew_managed(lowercase(r.command@), r.port as int, state.brew_services_map@)
            },
    )
}

/// The command of the first record of the process `pid`.
pub open spec fn first_command(records: Seq<ProcessInfo>, pid: i32) -> Option<Seq<char>>
    decreases records.len(),
{
    if records.len() == 0 {
        None
    } else {
        match first_command(records.drop_last(), pid) {
            Some(command) => Some(command),
            None => if records.last().pid == pid {
                Some(records.last().command@)
            } else {
                None
            },
        }
    }
}

/// The ports of an entry, written one after another.
pub open spec fn ports_text(ports: Seq<u16>) -> Seq<char> {
    join(port_texts(ports), ", "@)
}

/// The entry for one ordinary process: its ports, its command and, where
/// known, its project.
pub open spec fn process_line(records: Seq<ProcessInfo>, pid: i32, cache: Map<i32, ProjectInfo>) -> Line {
    let ports = ports_of(records, pid);
    let command = match first_command(records, pid) {
        Some(command) => command,
        None => Seq::<char>::empty(),
    };
    let base = ports_text(ports) + " \u{b7} "@ + command;
    Line::Item {
        id: process_menu_id_text(pid as int, ports[0] as int),
        label: match project_of(cache, pid) {
            Some(project) => base + " \u{b7} "@ + project,
            None => base,
        },
        enabled: true,
    }
}

/// A heading: its identifier, its title and the number of entries under it.
pub open spec fn heading(id: Seq<char>, title: Seq<char>, count: nat) -> Line {
    Line::Item { id, label: title + " \u{b7} "@ + decimal_digits(count), enabled: false }
}

/// The section of the ordinary processes: a heading, one entry per process
/// in ascending order of pid, and an entry to terminate them all where
/// there is more than one. Empty without ordinary processes.
pub open spec fn process_section(state: AppState) -> Seq<Line> {
    let regular = regular_of(state.processes@, state, Platform::MacOs);
    let pids = pids_of(regular);
    if regular.len() == 0 {
        Seq::<Line>::empty()
    } else {
        let entries = seq![heading("header_processes"@, "Processes"@, pids.len())]
            + pids.map_values(|pid: i32| process_line(regular, pid, state.project_cache@));
        if pids.len() > 1 {
            entries.push(
                Line::Item { id: "kill_all"@, label: "Kill All Processes"@, enabled: true },
            )
        } else {
            entries
        }
    }
}

/// The entry for one container.
pub open spec fn container_line(state: AppState, name: Seq<char>) -> Line {
    Line::Item {
        id: "docker_stop_"@ + name,
        label: ports_text(
            group_ports(state.processes@, docker_keys(state), name, state.processes@.len() as int),
        ) + " \u{b7} "@ + friendly_container(name),
        enabled: true,
    }
}

/// The section of the containers: a heading, one entry per container in
/// ascending order of name, and an entry to stop them all where there is
/// more than one. Empty without containers.
pub open spec fn docker_section(state: AppState) -> Seq<Line> {
    let names = group_names(docker_keys(state));
    if names.len() == 0 {
        Seq::<Line>::empty()
    } else {
        let entries = seq![heading("header_docker"@, "Docker Containers"@, names.len())]
            + names.map_values(|name: Seq<char>| container_line(state, name));
        if names.len() > 1 {
            entries.push(
                Line::Item { id: "docker_stop_all"@, label: "Stop All Containers"@, enabled: true },
            )
        } else {
            entries
        }
    }
}

/// The entry for one managed service.
pub open spec fn service_line(state: AppState, name: Seq<char>) -> Line {
    Line::Item {
        id: "brew_stop_"@ + name,
        label: ports_text(
            group_ports(state.processes@, brew_keys(state), name, state.processes@.len() as int),
        ) + " \u{b7} "@ + name,
        enabled: true,
    }
}

/// The section of the managed services: a heading, one entry per service
/// in ascending order of name, and an entry to stop them all where there
/// is more than one. Empty without managed services.
pub open spec fn brew_section(state: AppState) -> Seq<Line> {
    let names = group_names(brew_keys(state));
    if names.len() == 0 {
        Seq::<Line>::empty()
    } else {
        let entries = seq![heading("header_brew"@, "Brew Services"@, names.len())]
            + names.map_values(|name: Seq<char>| service_line(state, name));
        if names.len() > 1 {
            entries.push(
                Line::Item { id: "brew_stop_all"@, label: "Stop All Services"@, enabled: true },
            )
        } else {
            entries
        }
    }
}

/// A separator if both sides of it hold something.
pub open spec fn between(before: Seq<Line>, after: Seq<Line>) -> Seq<Line> {
    if before.len() > 0 && after.len() > 0 {
        seq![Line::Separator]
    } else {
        Seq::<Line>::empty()
    }
}

/// The entries that close every menu.
pub open spec fn closing_lines(launch_at_login: bool) -> Seq<Line> {
    seq![
        Line::Separator,
        Line::Item { id: "edit_config"@, label: "Edit Configuration..."@, enabled: true },
        Line::Item {
            id: "launch_at_login"@,
            label: if launch_at_login {
                "\u{2713} Launch at Login"@
            } else {
                "Launch at Login"@
            },
            enabled: true,
        },
        Line::Item { id: "quit"@, label: "Quit"@, enabled: true },
    ]
}

/// The whole menu for a state.
pub open spec fn menu_lines(state: AppState) -> Seq<Line> {
    let top = if state.processes@.len() == 0 {
        seq![Line::Item { id: "empty"@, label: "No dev ports listening"@, enabled: false }]
    } else {
        let p = process_section(state);
        let d = docker_section(state);
        let b = brew_section(state);
        p + between(p, d) + d + between(p + d, b) + b
    };
    top + closing_lines(state.config.system.launch_at_login)
}


/// The views of a list of keys, in order.
pub open spec fn key_views(keys: Seq<Option<String>>) -> Seq<Option<Seq<char>>> {
    keys.map_values(
        |k: Option<String>|
            match k {
                Some(name) => Some(name@),
                None => None,
            },
    )
}

fn push_entry(list: &mut Vec<MenuEntry>, entry: MenuEntry)
    ensures
        lines(final(list)@) == lines(old(list)@).push(entry@),
{
    list.push(entry);
    assert(lines(list@) =~= lines(old(list)@).push(entry@));
}

fn append_entries(list: &mut Vec<MenuEntry>, more: Vec<MenuEntry>)
    ensures
        lines(final(list)@) == lines(old(list)@) + lines(more@),
{
    let mut more = more;
    let ghost added = more@;
    list.append(&mut more);
    assert(lines(list@) =~= lines(old(list)@) + lines(added));
}

fn insert_name(sorted: &mut Vec<String>, name: String)
    ensures
        views(final(sorted)@) == with_name(views(old(sorted)@), name@),
{
    let wanted = to_chars(name.as_str());
    let ghost before = views(sorted@);
    let mut at: usize = sorted.len();
    proof {
        assert(before.take(at as int) =~= before);
        assert(before.skip(at as int) =~= Seq::<Seq<char>>::empty());
        assert(with_name(before.take(at as int), name@) + before.skip(at as int) =~= with_name(
            before,
            name@,
        ));
    }
    loop
        invariant_except_break
            at <= sorted.len(),
            sorted@ == old(sorted)@,
            before == views(sorted@),
            wanted@ == name@,
            with_name(before, name@) == with_name(before.take(at as int), name@) + before.skip(
                at as int,
            ),
        ensures
            at <= sorted.len(),
            sorted@ == old(sorted)@,
            before == views(sorted@),
            with_name(before, name@) == with_name(before.take(at as int), name@) + before.skip(
                at as int,
            ),
            at == 0 || text_leq(before[at - 1], name@),
        decreases at,
    {
        if at == 0 {
            break ;
        }
        let here = to_chars(sorted[at - 1].as_str());
        assert(before[at - 1] == sorted@[at - 1]@);
        if text_le(&here, &wanted) {
            break ;
        }
        proof {
            let head = before.take(at as int);
            assert(head.last() == before[at - 1]);
            assert(head.drop_last() =~= before.take(at - 1));
            crate::snapshot::lemma_text_leq_same(head.last());
            assert(with_name(head.drop_last(), name@).push(head.last()) + before.skip(at as int)
                =~= with_name(before.take(at - 1), name@) + before.skip(at - 1));
        }
        at = at - 1;
    }
    proof {
        let head = before.take(at as int);
        if at > 0 {
            assert(head.last() == before[at - 1]);
        }
    }
    if at > 0 && crate::services::str_equal(sorted[at - 1].as_str(), name.as_str()) {
        assert(before[at - 1] == sorted@[at - 1]@);
        assert(before.take(at as int) + before.skip(at as int) =~= before);
        return ;
    }
    proof {
        if at > 0 {
            assert(before[at - 1] == sorted@[at - 1]@);
        }
    }
    sorted.insert(at, name);
    assert(views(sorted@) =~= before.take(at as int).push(name@) + before.skip(at as int));
}

fn insert_port_again(sorted: &mut Vec<u16>, port: u16)
    ensures
        final(sorted)@ == with_port_again(old(sorted)@, port),
{
    let mut at: usize = sorted.len();
    assert(sorted@.take(at as int) =~= sorted@);
    assert(sorted@.skip(at as int) =~= Seq::<u16>::empty());
    assert(with_port_again(sorted@.take(at as int), port) + sorted@.skip(at as int)
        =~= with_port_again(sorted@, port));
    while at > 0 && sorted[at - 1] > port
        invariant
            at <= sorted.len(),
            sorted@ == old(sorted)@,
            with_port_again(sorted@, port) == with_port_again(sorted@.take(at as int), port)
                + sorted@.skip(at as int),
        decreases at,
    {
        proof {
            let head = sorted@.take(at as int);
            assert(head.last() == sorted@[at - 1]);
            assert(head.drop_last() =~= sorted@.take(at - 1));
            assert(with_port_again(head.drop_last(), port).push(head.last()) + sorted@.skip(
                at as int,
            ) =~= with_port_again(sorted@.take(at - 1), port) + sorted@.skip(at - 1));
        }
        at = at - 1;
    }
    proof {
        let head = sorted@.take(at as int);
        if at > 0 {
            assert(head.last() == sorted@[at - 1]);
        }
    }
    sorted.insert(at, port);
    assert(sorted@ =~= old(sorted)@.take(at as int).push(port) + old(sorted)@.skip(at as int));
}

fn names_of(keys: &Vec<Option<String>>) -> (names: Vec<String>)
    ensures
        views(names@) == group_names(key_views(keys@)),
{
    let ghost all = key_views(keys@);
    let mut names: Vec<String> = Vec::new();
    let mut i: usize = 0;
    proof {
        assert(all.take(0) =~= Seq::<Option<Seq<char>>>::empty());
        assert(views(names@) =~= Seq::<Seq<char>>::empty());
    }
    while i < keys.len()
        invariant
            i <= keys.len(),
            all == key_views(keys@),
            views(names@) == group_names(all.take(i as int)),
        decreases keys.len() - i,
    {
        proof {
            assert(all.take(i + 1).drop_last() =~= all.take(i as int));
            assert(all.take(i + 1).last() == all[i as int]);
        }
        match &keys[i] {
            Some(name) => {
                insert_name(&mut names, name.clone());
            },
            None => {},
        }
        i = i + 1;
    }
    assert(all.take(keys.len() as int) =~= all);
    names
}

fn ports_for(records: &[ProcessInfo], keys: &Vec<Option<String>>, name: &str) -> (ports: Vec<u16>)
    requires
        keys.len() == records.len(),
    ensures
        ports@ == group_ports(records@, key_views(keys@), name@, records.len() as int),
{
    let mut ports: Vec<u16> = Vec::new();
    let mut i: usize = 0;
    while i < records.len()
        invariant
            i <= records.len(),
            keys.len() == records.len(),
            ports@ == group_ports(records@, key_views(keys@), name@, i as int),
        decreases records.len() - i,
    {
        let matches = match &keys[i] {
            Some(key) => crate::services::str_equal(key.as_str(), name),
            None => false,
        };
        assert(key_views(keys@)[i as int] == (match keys@[i as int] {
            Some(key) => Some(key@),
            None => None,
        }));
        if matches {
            insert_port_again(&mut ports, records[i].port);
        }
        i = i + 1;
    }
    ports
}

fn ports_label(ports: &[u16]) -> (text: String)
    ensures
        text@ == ports_text(ports@),
{
    let texts = crate::menu::port_strings(ports);
    join_strings(&texts, ", ")
}

fn heading_entry(id: &str, title: &str, count: usize) -> (entry: MenuEntry)
    ensures
        entry@ == heading(id@, title@, count as nat),
{
    let mut label = String::from_str(title);
    label.append(" \u{b7} ");
    push_unsigned(&mut label, count as u64);
    MenuEntry::Item { id: String::from_str(id), label, enabled: false }
}

fn plain_entry(id: &str, label: &str, enabled: bool) -> (entry: MenuEntry)
    ensures
        entry@ == (Line::Item { id: id@, label: label@, enabled }),
{
    MenuEntry::Item { id: String::from_str(id), label: String::from_str(label), enabled }
}

fn docker_key_list(state: &AppState) -> (keys: Vec<Option<String>>)
    ensures
        keys.len() == state.processes.len(),
        key_views(keys@) == docker_keys(*state),
{
    broadcast use vstd::std_specs::hash::group_hash_axioms;

    let mut keys: Vec<Option<String>> = Vec::new();
    let mut i: usize = 0;
    while i < state.processes.len()
        invariant
            i <= state.processes.len(),
            keys.len() == i,
            forall|k: int| 0 <= k < i ==> key_views(keys@)[k] == docker_keys(*state)[k],
        decreases state.processes.len() - i,
    {
        let key = match state.docker_port_map.get(&state.processes[i].port) {
            Some(info) => Some(info.name.clone()),
            None => None,
        };
        let ghost before = key_views(keys@);
        keys.push(key);
        proof {
            assert forall|k: int| 0 <= k < i + 1 implies key_views(keys@)[k] == docker_keys(
                *state,
            )[k] by {
                if k < i {
                    assert(key_views(keys@)[k] == before[k]);
                }
            }
        }
        i = i + 1;
    }
    assert(key_views(keys@) =~= docker_keys(*state));
    keys
}

fn brew_key_list(state: &AppState) -> (keys: Vec<Option<String>>)
    ensures
        keys.len() == state.processes.len(),
        key_views(keys@) == brew_keys(*state),
{
    broadcast use vstd::std_specs::hash::group_hash_axioms;

    let mut keys: Vec<Option<String>> = Vec::new();
    let mut i: usize = 0;
    while i < state.processes.len()
        invariant
            i <= state.processes.len(),
            keys.len() == i,
            forall|k: int| 0 <= k < i ==> key_views(keys@)[k] == brew_keys(*state)[k],
        decreases state.processes.len() - i,
    {
        let record = &state.processes[i];
        let key = if state.docker_port_map.contains_key(&record.port) {
            None
        } else {
            get_brew_managed_service(record.command.as_str(), record.port, &state.brew_services_map)
        };
        let ghost before = key_views(keys@);
        keys.push(key);
        proof {
            assert forall|k: int| 0 <= k < i + 1 implies key_views(keys@)[k] == brew_keys(
                *state,
            )[k] by {
                if k < i {
                    assert(key_views(keys@)[k] == before[k]);
                }
            }
        }
        i = i + 1;
    }
    assert(key_views(keys@) =~= brew_keys(*state));
    keys
}


/// Lists that hold the same listeners give every process the same first
/// command.
proof fn lemma_first_command_depends_on_content(a: Seq<ProcessInfo>, b: Seq<ProcessInfo>)
    requires
        crate::model::listeners(a) == crate::model::listeners(b),
    ensures
        forall|pid: i32| #[trigger] first_command(a, pid) == first_command(b, pid),
    decreases a.len(),
{
    let la = crate::model::listeners(a);
    let lb = crate::model::listeners(b);
    assert(a.len() == la.len());
    assert(b.len() == lb.len());
    if a.len() > 0 {
        assert(crate::model::listeners(a.drop_last()) =~= la.drop_last());
        assert(crate::model::listeners(b.drop_last()) =~= lb.drop_last());
        lemma_first_command_depends_on_content(a.drop_last(), b.drop_last());
        assert(la.last() == a.last()@);
        assert(lb.last() == b.last()@);
        assert forall|pid: i32| #[trigger] first_command(a, pid) == first_command(b, pid) by {
            assert(first_command(a.drop_last(), pid) == first_command(b.drop_last(), pid));
        }
    }
}

fn command_of_first(records: &[ProcessInfo], pid: i32) -> (command: Option<String>)
    ensures
        first_command(records@, pid) == (match command {
            Some(text) => Some(text@),
            None => None,
        }),
{
    let mut i: usize = 0;
    assert(records@.take(0) =~= Seq::<ProcessInfo>::empty());
    while i < records.len()
        invariant
            i <= records.len(),
            first_command(records@.take(i as int), pid).is_none(),
        decreases records.len() - i,
    {
        proof {
            assert(records@.take(i + 1).drop_last() =~= records@.take(i as int));
            assert(records@.take(i + 1).last() == records@[i as int]);
        }
        if records[i].pid == pid {
            proof {
                lemma_first_command_stays(records@, i + 1, pid);
            }
            return Some(records[i].command.clone());
        }
        i = i + 1;
    }
    assert(records@.take(records.len() as int) =~= records@);
    None
}

proof fn lemma_first_command_stays(records: Seq<ProcessInfo>, upto: int, pid: i32)
    requires
        0 <= upto <= records.len(),
        first_command(records.take(upto), pid).is_some(),
    ensures
        first_command(records, pid) == first_command(records.take(upto), pid),
    decreases records.len() - upto,
{
    if upto < records.len() {
        assert(records.drop_last().take(upto) =~= records.take(upto));
        lemma_first_command_stays(records.drop_last(), upto, pid);
    } else {
        assert(records.take(upto) =~= records);
    }
}

fn process_entry(records: &[ProcessInfo], pid: i32, cache: &HashMap<i32, ProjectInfo>) -> (entry:
    MenuEntry)
    requires
        ports_of(records@, pid).len() > 0,
    ensures
        entry@ == process_line(records@, pid, cache@),
{
    broadcast use vstd::std_specs::hash::group_hash_axioms;

    let ports = collect_ports(records, pid);
    let mut label = ports_label(ports.as_slice());
    label.append(" \u{b7} ");
    match command_of_first(records, pid) {
        Some(command) => {
            label.append(command.as_str());
        },
        None => {
            assert(label@ + Seq::<char>::empty() =~= label@);
        },
    }
    match cache.get(&pid) {
        Some(project) => {
            label.append(" \u{b7} ");
            label.append(project.name.as_str());
        },
        None => {},
    }
    proof {
        let command = match first_command(records@, pid) {
            Some(command) => command,
            None => Seq::<char>::empty(),
        };
        let base = ports_text(ports@) + " \u{b7} "@ + command;
        if cache@.contains_key(pid) {
            assert(label@ =~= base + " \u{b7} "@ + cache@[pid].name@);
        } else {
            assert(label@ =~= base);
        }
    }
    MenuEntry::Item { id: process_menu_id(pid, ports[0]), label, enabled: true }
}

/// Every pid of a list has a port in it.
proof fn lemma_pids_have_ports(records: Seq<ProcessInfo>, pid: i32)
    requires
        pids_of(records).contains(pid),
    ensures
        ports_of(records, pid).len() > 0,
    decreases records.len(),
{
    if records.len() > 0 {
        let shorter = records.drop_last();
        crate::menu::lemma_pids_of(records);
        crate::menu::lemma_pids_of(shorter);
        if records.last().pid == pid {
            lemma_with_port_holds(ports_of(shorter, pid), records.last().port);
        } else {
            let i = choose|i: int| 0 <= i < records.len() && (#[trigger] records[i]).pid == pid;
            assert(shorter[i].pid == pid);
            assert(pids_of(shorter).contains(pid));
            lemma_pids_have_ports(shorter, pid);
        }
    } else {
        assert(pids_of(records) =~= Seq::<i32>::empty());
    }
}

proof fn lemma_with_port_holds(sorted: Seq<u16>, port: u16)
    ensures
        crate::menu::with_port(sorted, port).len() > 0,
    decreases sorted.len(),
{
    if sorted.len() > 0 && sorted.last() > port {
        lemma_with_port_holds(sorted.drop_last(), port);
    }
}

fn process_entries(state: &AppState) -> (list: Vec<MenuEntry>)
    ensures
        lines(list@) == process_section(*state),
{
    let regular = regular_processes(state, Platform::MacOs);
    let ghost wanted = regular_of(state.processes@, *state, Platform::MacOs);
    proof {
        crate::menu::lemma_targets_depend_on_content(regular@, wanted);
        lemma_first_command_depends_on_content(regular@, wanted);
        assert(regular@.len() == crate::model::listeners(regular@).len());
        assert(wanted.len() == crate::model::listeners(wanted).len());
    }
    let mut list: Vec<MenuEntry> = Vec::new();
    assert(lines(list@) =~= Seq::<Line>::empty());
    if regular.len() == 0 {
        return list;
    }
    let pids = crate::menu::collect_pids(regular.as_slice());
    push_entry(&mut list, heading_entry("header_processes", "Processes", pids.len()));
    let ghost first = seq![heading("header_processes"@, "Processes"@, pids@.len())];
    let mut i: usize = 0;
    assert(lines(list@) =~= first + pids@.take(0).map_values(
        |pid: i32| process_line(wanted, pid, state.project_cache@),
    ));
    while i < pids.len()
        invariant
            i <= pids.len(),
            pids@ == pids_of(regular@),
            pids@ == pids_of(wanted),
            forall|pid: i32| #[trigger] ports_of(regular@, pid) == ports_of(wanted, pid),
            forall|pid: i32| #[trigger] first_command(regular@, pid) == first_command(wanted, pid),
            lines(list@) == first + pids@.take(i as int).map_values(
                |pid: i32| process_line(wanted, pid, state.project_cache@),
            ),
        decreases pids.len() - i,
    {
        let pid = pids[i];
        proof {
            assert(pids@.contains(pid));
            lemma_pids_have_ports(regular@, pid);
            assert(ports_of(regular@, pid) == ports_of(wanted, pid));
            assert(first_command(regular@, pid) == first_command(wanted, pid));
        }
        let entry = process_entry(regular.as_slice(), pid, &state.project_cache);
        push_entry(&mut list, entry);
        i = i + 1;
        assert(lines(list@) =~= first + pids@.take(i as int).map_values(
            |pid: i32| process_line(wanted, pid, state.project_cache@),
        ));
    }
    assert(pids@.take(pids.len() as int) =~= pids@);
    if pids.len() > 1 {
        push_entry(&mut list, plain_entry("kill_all", "Kill All Processes", true));
    }
    list
}

fn container_entry(state: &AppState, keys: &Vec<Option<String>>, name: &str) -> (entry: MenuEntry)
    requires
        keys.len() == state.processes.len(),
        key_views(keys@) == docker_keys(*state),
    ensures
        entry@ == container_line(*state, name@),
{
    let ports = ports_for(state.processes.as_slice(), keys, name);
    let mut label = ports_label(ports.as_slice());
    label.append(" \u{b7} ");
    let shown = friendly_container_name(name);
    label.append(shown.as_str());
    let mut id = String::from_str("docker_stop_");
    id.append(name);
    MenuEntry::Item { id, label, enabled: true }
}

fn service_entry(state: &AppState, keys: &Vec<Option<String>>, name: &str) -> (entry: MenuEntry)
    requires
        keys.len() == state.processes.len(),
        key_views(keys@) == brew_keys(*state),
    ensures
        entry@ == service_line(*state, name@),
{
    let ports = ports_for(state.processes.as_slice(), keys, name);
    let mut label = ports_label(ports.as_slice());
    label.append(" \u{b7} ");
    label.append(name);
    let mut id = String::from_str("brew_stop_");
    id.append(name);
    MenuEntry::Item { id, label, enabled: true }
}

fn docker_entries(state: &AppState) -> (list: Vec<MenuEntry>)
    ensures
        lines(list@) == docker_section(*state),
{
    let keys = docker_key_list(state);
    let names = names_of(&keys);
    let mut list: Vec<MenuEntry> = Vec::new();
    assert(lines(list@) =~= Seq::<Line>::empty());
    if names.len() == 0 {
        return list;
    }
    push_entry(&mut list, heading_entry("header_docker", "Docker Containers", names.len()));
    let ghost first = seq![heading("header_docker"@, "Docker Containers"@, names@.len())];
    let ghost all = views(names@);
    let mut i: usize = 0;
    assert(lines(list@) =~= first + all.take(0).map_values(
        |name: Seq<char>| container_line(*state, name),
    ));
    while i < names.len()
        invariant
            i <= names.len(),
            keys.len() == state.processes.len(),
            key_views(keys@) == docker_keys(*state),
            all == views(names@),
            lines(list@) == first + all.take(i as int).map_values(
                |name: Seq<char>| container_line(*state, name),
            ),
        decreases names.len() - i,
    {
        assert(all[i as int] == names@[i as int]@);
        let entry = container_entry(state, &keys, names[i].as_str());
        push_entry(&mut list, entry);
        i = i + 1;
        assert(lines(list@) =~= first + all.take(i as int).map_values(
            |name: Seq<char>| container_line(*state, name),
        ));
    }
    assert(all.take(names.len() as int) =~= all);
    if names.len() > 1 {
        push_entry(&mut list, plain_entry("docker_stop_all", "Stop All Containers", true));
    }
    list
}

fn brew_entries(state: &AppState) -> (list: Vec<MenuEntry>)
    ensures
        lines(list@) == brew_section(*state),
{
    let keys = brew_key_list(state);
    let names = names_of(&keys);
    let mut list: Vec<MenuEntry> = Vec::new();
    assert(lines(list@) =~= Seq::<Line>::empty());
    if names.len() == 0 {
        return list;
    }
    push_entry(&mut list, heading_entry("header_brew", "Brew Services", names.len()));
    let ghost first = seq![heading("header_brew"@, "Brew Services"@, names@.len())];
    let ghost all = views(names@);
    let mut i: usize = 0;
    assert(lines(list@) =~= first + all.take(0).map_values(
        |name: Seq<char>| service_line(*state, name),
    ));
    while i < names.len()
        invariant
            i <= names.len(),
            keys.len() == state.processes.len(),
            key_views(keys@) == brew_keys(*state),
            all == views(names@),
            lines(list@) == first + all.take(i as int).map_values(
                |name: Seq<char>| service_line(*state, name),
            ),
        decreases names.len() - i,
    {
        assert(all[i as int] == names@[i as int]@);
        let entry = service_entry(state, &keys, names[i].as_str());
        push_entry(&mut list, entry);
        i = i + 1;
        assert(lines(list@) =~= first + all.take(i as int).map_values(
            |name: Seq<char>| service_line(*state, name),
        ));
    }
    assert(all.take(names.len() as int) =~= all);
    if names.len() > 1 {
        push_entry(&mut list, plain_entry("brew_stop_all", "Stop All Services", true));
    }
    list
}

/// Builds the menu for a state: the ordinary processes, the containers and
/// the managed services, each section under its heading and set apart from
/// the one before it; a single disabled entry where nothing listens; and
/// at the end the entries for the configuration, launching at login and
/// leaving.
pub fn build_menu_with_context(state: &AppState) -> (menu: Vec<MenuEntry>)
    ensures
        lines(menu@) == menu_lines(*state),
{
    let mut menu: Vec<MenuEntry> = Vec::new();
    assert(lines(menu@) =~= Seq::<Line>::empty());
    if state.processes.len() == 0 {
        push_entry(&mut menu, plain_entry("empty", "No dev ports listening", false));
    } else {
        let processes = process_entries(state);
        let containers = docker_entries(state);
        let services = brew_entries(state);
        let ghost p = lines(processes@);
        let ghost d = lines(containers@);
        let ghost b = lines(services@);
        let some_processes = processes.len() > 0;
        let some_containers = containers.len() > 0;
        let some_services = services.len() > 0;
        append_entries(&mut menu, processes);
        if some_processes && some_containers {
            push_entry(&mut menu, MenuEntry::Separator);
        }
        append_entries(&mut menu, containers);
        if (some_processes || some_containers) && some_services {
            push_entry(&mut menu, MenuEntry::Separator);
        }
        append_entries(&mut menu, services);
        assert(lines(menu@) =~= p + between(p, d) + d + between(p + d, b) + b);
    }
    let ghost top = lines(menu@);
    push_entry(&mut menu, MenuEntry::Separator);
    push_entry(&mut menu, plain_entry("edit_config", "Edit Configuration...", true));
    if state.config.system.launch_at_login {
        push_entry(&mut menu, plain_entry("launch_at_login", "\u{2713} Launch at Login", true));
    } else {
        push_entry(&mut menu, plain_entry("launch_at_login", "Launch at Login", true));
    }
    push_entry(&mut menu, plain_entry("quit", "Quit", true));
    assert(lines(menu@) =~= top + closing_lines(state.config.system.launch_at_login));
    menu
}


} // verus!
