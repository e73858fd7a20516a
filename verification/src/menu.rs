//! What the user sees and picks: labels for processes, the tooltip, the
//! identifiers of menu entries and what they stand for, and the targets of a
//! request to terminate.

use crate::model::{
    listeners, targets, Choice, Feedback, FeedbackSeverity, KillFeedback, KillTarget, Listener,
    MenuAction, ProcessInfo, Target,
};
use crate::snapshot::is_stand_in;
use crate::text::{
    chars_equal_str, decimal, decimal_digits, join, join_strings, lemma_decimal_reads_back,
    lemma_split_in_two, parse_i32_range, parse_signed, parse_u16_range, parse_unsigned, pieces,
    push_signed, push_unsigned, split, split_chars, strip_prefix, tail_chars, to_chars,
    unsigned_to_string, views,
};
use vstd::prelude::*;

verus! {

/// How many listeners the tooltip lists one by one.
pub const MAX_TOOLTIP_ENTRIES: usize = 5;

/// The decimal texts of a list of ports, in order.
pub open spec fn port_texts(ports: Seq<u16>) -> Seq<Seq<char>> {
    ports.map_values(|p: u16| decimal_digits(p as nat))
}

/// The label of a process: its command, or "Unknown" without one, followed
/// by its ports in brackets when it has any.
pub open spec fn label_text(command: Seq<char>, ports: Seq<u16>) -> Seq<char> {
    let name = if command.len() == 0 {
        "Unknown"@
    } else {
        command
    };
    if ports.len() == 0 {
        name
    } else if ports.len() == 1 {
        name + " (port "@ + join(port_texts(ports), ", "@) + ")"@
    } else {
        name + " (ports "@ + join(port_texts(ports), ", "@) + ")"@
    }
}

pub(crate) fn port_strings(ports: &[u16]) -> (texts: Vec<String>)
    ensures
        views(texts@) == port_texts(ports@),
{
    let mut texts: Vec<String> = Vec::new();
    let mut i: usize = 0;
    while i < ports.len()
        invariant
            i <= ports.len(),
            texts.len() == i,
            forall|k: int| 0 <= k < i ==> texts@[k]@ == decimal_digits(ports@[k] as nat),
        decreases ports.len() - i,
    {
        texts.push(unsigned_to_string(ports[i] as u64));
        i = i + 1;
    }
    assert(views(texts@) =~= port_texts(ports@));
    texts
}

/// The label of a process with the given command and ports, such as
/// `node (port 3000)` or `python (ports 8000, 8001)`.
pub fn format_command_label(command: &str, ports: &[u16]) -> (label: String)
    ensures
        label@ == label_text(command@, ports@),
{
    let mut label = if command.unicode_len() == 0 {
        String::from_str("Unknown")
    } else {
        String::from_str(command)
    };
    if ports.len() > 0 {
        if ports.len() > 1 {
            label.append(" (ports ");
        } else {
            label.append(" (port ");
        }
        let texts = port_strings(ports);
        let listed = join_strings(&texts, ", ");
        label.append(listed.as_str());
        label.append(")");
    }
    label
}

/// The identifier of the menu entry for a process.
pub open spec fn process_menu_id_text(pid: int, port: int) -> Seq<char> {
    "process_"@ + decimal(pid) + "_"@ + decimal(port)
}

/// The identifier of the menu entry for the process `pid`, shown under its
/// lowest port.
pub fn process_menu_id(pid: i32, port: u16) -> (id: String)
    ensures
        id@ == process_menu_id_text(pid as int, port as int),
{
    let mut id = String::from_str("process_");
    push_signed(&mut id, pid as i64);
    id.append("_");
    push_signed(&mut id, port as i64);
    id
}

/// The tooltip line for one listener.
pub open spec fn listener_line(record: Listener) -> Seq<char> {
    "Port "@ + decimal(record.port) + " \u{2192} "@ + record.command + " (PID "@ + decimal(
        record.pid,
    ) + ")"@
}

/// What goes before the message of a feedback of the given severity.
pub open spec fn severity_mark(severity: FeedbackSeverity) -> Seq<char> {
    match severity {
        FeedbackSeverity::Info => Seq::<char>::empty(),
        FeedbackSeverity::Warning => "\u{26a0}\u{fe0f} "@,
        FeedbackSeverity::Error => "\u{26d4} "@,
    }
}

/// The tooltip line for the last feedback.
pub open spec fn feedback_line(feedback: Feedback) -> Seq<char> {
    "Last action: "@ + severity_mark(feedback.severity) + feedback.message
}

/// The lines about the listeners: their number, the first few one by one,
/// and how many more there are.
pub open spec fn listener_lines(records: Seq<Listener>) -> Seq<Seq<char>> {
    if records.len() == 0 {
        seq!["No dev port listeners detected."@]
    } else {
        let shown = if records.len() > MAX_TOOLTIP_ENTRIES {
            MAX_TOOLTIP_ENTRIES as int
        } else {
            records.len() as int
        };
        let head = seq!["Active listeners: "@ + decimal_digits(records.len())]
            + records.take(shown).map_values(|r: Listener| listener_line(r));
        if records.len() > MAX_TOOLTIP_ENTRIES {
            head.push(
                "\u{2026}and "@ + decimal_digits((records.len() - MAX_TOOLTIP_ENTRIES) as nat)
                    + " more"@,
            )
        } else {
            head
        }
    }
}

/// The lines of the tooltip.
pub open spec fn tooltip_lines(records: Seq<Listener>, feedback: Option<Feedback>) -> Seq<
    Seq<char>,
> {
    match feedback {
        Some(last) => listener_lines(records).push(feedback_line(last)),
        None => listener_lines(records),
    }
}

fn push_line(lines: &mut Vec<String>, line: String)
    ensures
        views(final(lines)@) == views(old(lines)@).push(line@),
{
    lines.push(line);
    assert(views(lines@) =~= views(old(lines)@).push(line@));
}

fn listener_line_string(record: &ProcessInfo) -> (line: String)
    ensures
        line@ == listener_line(record@),
{
    let mut line = String::from_str("Port ");
    push_signed(&mut line, record.port as i64);
    line.append(" \u{2192} ");
    line.append(record.command.as_str());
    line.append(" (PID ");
    push_signed(&mut line, record.pid as i64);
    line.append(")");
    line
}

fn listener_line_strings(processes: &[ProcessInfo]) -> (lines: Vec<String>)
    ensures
        views(lines@) == listener_lines(listeners(processes@)),
{
    let ghost records = listeners(processes@);
    let mut lines: Vec<String> = Vec::new();
    assert(views(lines@) =~= Seq::<Seq<char>>::empty());
    if processes.len() == 0 {
        push_line(&mut lines, String::from_str("No dev port listeners detected."));
        assert(views(lines@) =~= seq!["No dev port listeners detected."@]);
        return lines;
    }
    let mut count = String::from_str("Active listeners: ");
    push_unsigned(&mut count, processes.len() as u64);
    push_line(&mut lines, count);
    let shown: usize = if processes.len() > MAX_TOOLTIP_ENTRIES {
        MAX_TOOLTIP_ENTRIES
    } else {
        processes.len()
    };
    let ghost first = seq!["Active listeners: "@ + decimal_digits(records.len())];
    let mut i: usize = 0;
    assert(views(lines@) =~= first + records.take(0).map_values(|r: Listener| listener_line(r)));
    while i < shown
        invariant
            i <= shown <= processes.len(),
            records == listeners(processes@),
            views(lines@) == first + records.take(i as int).map_values(
                |r: Listener| listener_line(r),
            ),
        decreases shown - i,
    {
        let line = listener_line_string(&processes[i]);
        push_line(&mut lines, line);
        i = i + 1;
        assert(views(lines@) =~= first + records.take(i as int).map_values(
            |r: Listener| listener_line(r),
        ));
    }
    if processes.len() > MAX_TOOLTIP_ENTRIES {
        let mut more = String::from_str("\u{2026}and ");
        push_unsigned(&mut more, (processes.len() - MAX_TOOLTIP_ENTRIES) as u64);
        more.append(" more");
        push_line(&mut lines, more);
    }
    lines
}

/// The tooltip: how many listeners there are, the first
/// [`MAX_TOOLTIP_ENTRIES`] of them, how many more, and the last feedback
/// with a mark for its severity, one line each.
pub fn build_tooltip(processes: &[ProcessInfo], feedback: Option<&KillFeedback>) -> (tooltip:
    String)
    ensures
        tooltip@ == join(
            tooltip_lines(
                listeners(processes@),
                match feedback {
                    Some(last) => Some(last@),
                    None => None,
                },
            ),
            "\n"@,
        ),
{
    let mut lines = listener_line_strings(processes);
    match feedback {
        Some(last) => {
            let mut line = String::from_str("Last action: ");
            match last.severity {
                FeedbackSeverity::Info => {
                    assert(line@ + severity_mark(last.severity) =~= line@);
                },
                FeedbackSeverity::Warning => {
                    line.append("\u{26a0}\u{fe0f} ");
                },
                FeedbackSeverity::Error => {
                    line.append("\u{26d4} ");
                },
            }
            line.append(last.message.as_str());
            push_line(&mut lines, line);
        },
        None => {},
    }
    join_strings(&lines, "\n")
}


/// An ascending list with `port` put in at its place, unless it is there
/// already.
pub open spec fn with_port(sorted: Seq<u16>, port: u16) -> Seq<u16>
    decreases sorted.len(),
{
    if sorted.len() == 0 || sorted.last() < port {
        sorted.push(port)
    } else if sorted.last() == port {
        sorted
    } else {
        with_port(sorted.drop_last(), port).push(sorted.last())
    }
}

/// An ascending list with `pid` put in at its place, unless it is there
/// already.
pub open spec fn with_pid(sorted: Seq<i32>, pid: i32) -> Seq<i32>
    decreases sorted.len(),
{
    if sorted.len() == 0 || sorted.last() < pid {
        sorted.push(pid)
    } else if sorted.last() == pid {
        sorted
    } else {
        with_pid(sorted.drop_last(), pid).push(sorted.last())
    }
}

/// The ports on which the process `pid` listens, ascending, each once.
pub open spec fn ports_of(records: Seq<ProcessInfo>, pid: i32) -> Seq<u16>
    decreases records.len(),
{
    if records.len() == 0 {
        Seq::<u16>::empty()
    } else if records.last().pid == pid {
        with_port(ports_of(records.drop_last(), pid), records.last().port)
    } else {
        ports_of(records.drop_last(), pid)
    }
}

/// The pids of the records, ascending, each once.
pub open spec fn pids_of(records: Seq<ProcessInfo>) -> Seq<i32>
    decreases records.len(),
{
    if records.len() == 0 {
        Seq::<i32>::empty()
    } else {
        with_pid(pids_of(records.drop_last()), records.last().pid)
    }
}

/// The command shown for the process `pid` in a request for all: that of
/// its first record that has one.
pub open spec fn group_command(records: Seq<ProcessInfo>, pid: i32) -> Seq<char>
    decreases records.len(),
{
    if records.len() == 0 {
        Seq::<char>::empty()
    } else {
        let before = group_command(records.drop_last(), pid);
        if records.last().pid == pid && before.len() == 0 {
            records.last().command@
        } else {
            before
        }
    }
}

/// The target that stands for the process `pid`: one target for all its
/// ports.
pub open spec fn group_target(records: Seq<ProcessInfo>, pid: i32) -> Target {
    Target { pid: pid as int, label: label_text(group_command(records, pid), ports_of(records, pid)) }
}

/// One target for every process among the records, in ascending order of
/// pid.
pub open spec fn all_targets(records: Seq<ProcessInfo>) -> Seq<Target> {
    pids_of(records).map_values(|pid: i32| group_target(records, pid))
}

/// Whether a list of numbers is strictly ascending.
pub open spec fn ascending_pids(pids: Seq<i32>) -> bool {
    forall|i: int, j: int| 0 <= i < j < pids.len() ==> pids[i] < pids[j]
}

/// Putting a pid into an ascending list keeps the list ascending, and adds
/// that pid and no other.
pub proof fn lemma_with_pid(sorted: Seq<i32>, pid: i32)
    requires
        ascending_pids(sorted),
    ensures
        ascending_pids(with_pid(sorted, pid)),
        forall|x: i32|
            #![trigger with_pid(sorted, pid).contains(x)]
            with_pid(sorted, pid).contains(x) <==> (x == pid || sorted.contains(x)),
    decreases sorted.len(),
{
    let out = with_pid(sorted, pid);
    if sorted.len() == 0 || sorted.last() < pid {
        assert forall|x: i32| #![trigger out.contains(x)]
            out.contains(x) <==> (x == pid || sorted.contains(x)) by {
            if out.contains(x) {
                let i = choose|i: int| 0 <= i < out.len() && out[i] == x;
                if i < sorted.len() {
                    assert(sorted[i] == x);
                }
            }
            if sorted.contains(x) {
                let i = choose|i: int| 0 <= i < sorted.len() && sorted[i] == x;
                assert(out[i] == x);
            }
            if x == pid {
                assert(out[sorted.len() as int] == x);
            }
        }
    } else if sorted.last() == pid {
        assert(sorted[sorted.len() - 1] == pid);
    } else {
        let shorter = sorted.drop_last();
        lemma_with_pid(shorter, pid);
        let inner = with_pid(shorter, pid);
        assert forall|i: int, j: int| 0 <= i < j < out.len() implies out[i] < out[j] by {
            if j == out.len() - 1 {
                assert(inner.contains(inner[i]));
                assert(with_pid(shorter, pid).contains(inner[i]));
                if inner[i] != pid {
                    let k = choose|k: int| 0 <= k < shorter.len() && shorter[k] == inner[i];
                    assert(sorted[k] < sorted[sorted.len() - 1]);
                }
            }
        }
        assert forall|x: i32| #![trigger out.contains(x)]
            out.contains(x) <==> (x == pid || sorted.contains(x)) by {
            if out.contains(x) {
                let i = choose|i: int| 0 <= i < out.len() && out[i] == x;
                if i < inner.len() {
                    assert(inner.contains(x));
                    if x != pid {
                        let k = choose|k: int| 0 <= k < shorter.len() && shorter[k] == x;
                        assert(sorted[k] == x);
                    }
                } else {
                    assert(sorted[sorted.len() - 1] == x);
                }
            }
            if sorted.contains(x) {
                let i = choose|i: int| 0 <= i < sorted.len() && sorted[i] == x;
                if i < shorter.len() {
                    assert(shorter[i] == x);
                    assert(inner.contains(x));
                    let k = choose|k: int| 0 <= k < inner.len() && inner[k] == x;
                    assert(out[k] == x);
                } else {
                    assert(out[out.len() - 1] == x);
                }
            }
            if x == pid {
                assert(inner.contains(pid));
                let k = choose|k: int| 0 <= k < inner.len() && inner[k] == pid;
                assert(out[k] == pid);
            }
        }
    }
}

/// The pids of a list of records are strictly ascending, and they are the
/// pids that occur among the records.
pub proof fn lemma_pids_of(records: Seq<ProcessInfo>)
    ensures
        ascending_pids(pids_of(records)),
        forall|pid: i32|
            #![trigger pids_of(records).contains(pid)]
            pids_of(records).contains(pid) <==> exists|i: int|
                0 <= i < records.len() && (#[trigger] records[i]).pid == pid,
    decreases records.len(),
{
    if records.len() > 0 {
        let shorter = records.drop_last();
        lemma_pids_of(shorter);
        lemma_with_pid(pids_of(shorter), records.last().pid);
        assert forall|pid: i32|
            #![trigger pids_of(records).contains(pid)]
            pids_of(records).contains(pid) <==> exists|i: int|
                0 <= i < records.len() && (#[trigger] records[i]).pid == pid by {
            if pids_of(records).contains(pid) {
                if pid == records.last().pid {
                    assert(records[records.len() - 1].pid == pid);
                } else {
                    assert(with_pid(pids_of(shorter), records.last().pid).contains(pid));
                    assert(pids_of(shorter).contains(pid));
                    let i = choose|i: int| 0 <= i < shorter.len() && (#[trigger] shorter[i]).pid == pid;
                    assert(records[i].pid == pid);
                }
            }
            if exists|i: int| 0 <= i < records.len() && (#[trigger] records[i]).pid == pid {
                let i = choose|i: int| 0 <= i < records.len() && (#[trigger] records[i]).pid == pid;
                if i < shorter.len() {
                    assert(shorter[i].pid == pid);
                    assert(pids_of(shorter).contains(pid));
                }
                assert(with_pid(pids_of(shorter), records.last().pid).contains(pid));
            }
        }
    }
}

fn insert_port(sorted: &mut Vec<u16>, port: u16)
    ensures
        final(sorted)@ == with_port(old(sorted)@, port),
{
    let mut at: usize = sorted.len();
    assert(sorted@.take(at as int) =~= sorted@);
    assert(sorted@.skip(at as int) =~= Seq::<u16>::empty());
    assert(with_port(sorted@.take(at as int), port) + sorted@.skip(at as int) =~= with_port(
        sorted@,
        port,
    ));
    while at > 0 && sorted[at - 1] > port
        invariant
            at <= sorted.len(),
            sorted@ == old(sorted)@,
            with_port(sorted@, port) == with_port(sorted@.take(at as int), port) + sorted@.skip(
                at as int,
            ),
        decreases at,
    {
        proof {
            let head = sorted@.take(at as int);
            assert(head.last() == sorted@[at - 1]);
            assert(head.drop_last() =~= sorted@.take(at - 1));
            assert(with_port(head.drop_last(), port).push(head.last()) + sorted@.skip(at as int)
                =~= with_port(sorted@.take(at - 1), port) + sorted@.skip(at - 1));
        }
        at = at - 1;
    }
    proof {
        let head = sorted@.take(at as int);
        if at > 0 {
            assert(head.last() == sorted@[at - 1]);
        }
    }
    if at > 0 && sorted[at - 1] == port {
        assert(sorted@.take(at as int) + sorted@.skip(at as int) =~= sorted@);
        return ;
    }
    sorted.insert(at, port);
    assert(sorted@ =~= old(sorted)@.take(at as int).push(port) + old(sorted)@.skip(at as int));
}

pub(crate) fn insert_pid(sorted: &mut Vec<i32>, pid: i32)
    ensures
        final(sorted)@ == with_pid(old(sorted)@, pid),
{
    let mut at: usize = sorted.len();
    assert(sorted@.take(at as int) =~= sorted@);
    assert(sorted@.skip(at as int) =~= Seq::<i32>::empty());
    assert(with_pid(sorted@.take(at as int), pid) + sorted@.skip(at as int) =~= with_pid(
        sorted@,
        pid,
    ));
    while at > 0 && sorted[at - 1] > pid
        invariant
            at <= sorted.len(),
            sorted@ == old(sorted)@,
            with_pid(sorted@, pid) == with_pid(sorted@.take(at as int), pid) + sorted@.skip(
                at as int,
            ),
        decreases at,
    {
        proof {
            let head = sorted@.take(at as int);
            assert(head.last() == sorted@[at - 1]);
            assert(head.drop_last() =~= sorted@.take(at - 1));
            assert(with_pid(head.drop_last(), pid).push(head.last()) + sorted@.skip(at as int)
                =~= with_pid(sorted@.take(at - 1), pid) + sorted@.skip(at - 1));
        }
        at = at - 1;
    }
    proof {
        let head = sorted@.take(at as int);
        if at > 0 {
            assert(head.last() == sorted@[at - 1]);
        }
    }
    if at > 0 && sorted[at - 1] == pid {
        assert(sorted@.take(at as int) + sorted@.skip(at as int) =~= sorted@);
        return ;
    }
    sorted.insert(at, pid);
    assert(sorted@ =~= old(sorted)@.take(at as int).push(pid) + old(sorted)@.skip(at as int));
}

/// Whether a list of ports is strictly ascending.
pub open spec fn ascending_ports(ports: Seq<u16>) -> bool {
    forall|i: int, j: int| 0 <= i < j < ports.len() ==> ports[i] < ports[j]
}

/// Putting a port into an ascending list keeps the list ascending, and adds
/// that port and no other.
pub proof fn lemma_with_port(sorted: Seq<u16>, port: u16)
    requires
        ascending_ports(sorted),
    ensures
        ascending_ports(with_port(sorted, port)),
        forall|x: u16|
            #![trigger with_port(sorted, port).contains(x)]
            with_port(sorted, port).contains(x) <==> (x == port || sorted.contains(x)),
    decreases sorted.len(),
{
    let out = with_port(sorted, port);
    if sorted.len() == 0 || sorted.last() < port {
        assert forall|x: u16| #![trigger out.contains(x)]
            out.contains(x) <==> (x == port || sorted.contains(x)) by {
            if out.contains(x) {
                let i = choose|i: int| 0 <= i < out.len() && out[i] == x;
                if i < sorted.len() {
                    assert(sorted[i] == x);
                }
            }
            if sorted.contains(x) {
                let i = choose|i: int| 0 <= i < sorted.len() && sorted[i] == x;
                assert(out[i] == x);
            }
            if x == port {
                assert(out[sorted.len() as int] == x);
            }
        }
    } else if sorted.last() == port {
        assert(sorted[sorted.len() - 1] == port);
    } else {
        let shorter = sorted.drop_last();
        lemma_with_port(shorter, port);
        let inner = with_port(shorter, port);
        assert forall|i: int, j: int| 0 <= i < j < out.len() implies out[i] < out[j] by {
            if j == out.len() - 1 {
                assert(inner.contains(inner[i]));
                assert(with_port(shorter, port).contains(inner[i]));
                if inner[i] != port {
                    let k = choose|k: int| 0 <= k < shorter.len() && shorter[k] == inner[i];
                    assert(sorted[k] < sorted[sorted.len() - 1]);
                }
            }
        }
        assert forall|x: u16| #![trigger out.contains(x)]
            out.contains(x) <==> (x == port || sorted.contains(x)) by {
            if out.contains(x) {
                let i = choose|i: int| 0 <= i < out.len() && out[i] == x;
                if i < inner.len() {
                    assert(inner.contains(x));
                    if x != port {
                        let k = choose|k: int| 0 <= k < shorter.len() && shorter[k] == x;
                        assert(sorted[k] == x);
                    }
                } else {
                    assert(sorted[sorted.len() - 1] == x);
                }
            }
            if sorted.contains(x) {
                let i = choose|i: int| 0 <= i < sorted.len() && sorted[i] == x;
                if i < shorter.len() {
                    assert(shorter[i] == x);
                    assert(inner.contains(x));
                    let k = choose|k: int| 0 <= k < inner.len() && inner[k] == x;
                    assert(out[k] == x);
                } else {
                    assert(out[out.len() - 1] == x);
                }
            }
            if x == port {
                assert(inner.contains(port));
                let k = choose|k: int| 0 <= k < inner.len() && inner[k] == port;
                assert(out[k] == port);
            }
        }
    }
}

/// The ports of a process are strictly ascending, so none occurs twice, and
/// they are the ports of the records of that process.
pub proof fn lemma_ports_of(records: Seq<ProcessInfo>, pid: i32)
    ensures
        ascending_ports(ports_of(records, pid)),
        forall|port: u16|
            #![trigger ports_of(records, pid).contains(port)]
            ports_of(records, pid).contains(port) <==> exists|i: int|
                0 <= i < records.len() && (#[trigger] records[i]).pid == pid && records[i].port
                    == port,
    decreases records.len(),
{
    if records.len() > 0 {
        let shorter = records.drop_last();
        lemma_ports_of(shorter, pid);
        if records.last().pid == pid {
            lemma_with_port(ports_of(shorter, pid), records.last().port);
        }
        assert forall|port: u16|
            #![trigger ports_of(records, pid).contains(port)]
            ports_of(records, pid).contains(port) <==> exists|i: int|
                0 <= i < records.len() && (#[trigger] records[i]).pid == pid && records[i].port
                    == port by {
            if ports_of(records, pid).contains(port) {
                if records.last().pid == pid && port == records.last().port {
                    assert(records[records.len() - 1].pid == pid);
                } else {
                    if records.last().pid == pid {
                        assert(with_port(ports_of(shorter, pid), records.last().port).contains(
                            port,
                        ));
                    }
                    assert(ports_of(shorter, pid).contains(port));
                    let i = choose|i: int|
                        0 <= i < shorter.len() && (#[trigger] shorter[i]).pid == pid
                            && shorter[i].port == port;
                    assert(records[i].pid == pid);
                }
            }
            if exists|i: int|
                0 <= i < records.len() && (#[trigger] records[i]).pid == pid && records[i].port
                    == port {
                let i = choose|i: int|
                    0 <= i < records.len() && (#[trigger] records[i]).pid == pid
                        && records[i].port == port;
                if i < shorter.len() {
                    assert(shorter[i].pid == pid);
                    assert(ports_of(shorter, pid).contains(port));
                }
                if records.last().pid == pid {
                    assert(with_port(ports_of(shorter, pid), records.last().port).contains(
                        port,
                    ));
                }
            }
        }
    }
}

/// The ports on which the process `pid` listens, ascending, each once.
pub fn collect_ports(processes: &[ProcessInfo], pid: i32) -> (ports: Vec<u16>)
    ensures
        ports@ == ports_of(processes@, pid),
        ascending_ports(ports@),
{
    proof {
        lemma_ports_of(processes@, pid);
    }
    let mut ports: Vec<u16> = Vec::new();
    let mut i: usize = 0;
    assert(processes@.take(0) =~= Seq::<ProcessInfo>::empty());
    while i < processes.len()
        invariant
            i <= processes.len(),
            ports@ == ports_of(processes@.take(i as int), pid),
        decreases processes.len() - i,
    {
        proof {
            assert(processes@.take(i + 1).drop_last() =~= processes@.take(i as int));
            assert(processes@.take(i + 1).last() == processes@[i as int]);
        }
        if processes[i].pid == pid {
            insert_port(&mut ports, processes[i].port);
        }
        i = i + 1;
    }
    assert(processes@.take(processes.len() as int) =~= processes@);
    ports
}

pub(crate) fn collect_pids(processes: &[ProcessInfo]) -> (pids: Vec<i32>)
    ensures
        pids@ == pids_of(processes@),
{
    let mut pids: Vec<i32> = Vec::new();
    let mut i: usize = 0;
    assert(processes@.take(0) =~= Seq::<ProcessInfo>::empty());
    while i < processes.len()
        invariant
            i <= processes.len(),
            pids@ == pids_of(processes@.take(i as int)),
        decreases processes.len() - i,
    {
        proof {
            assert(processes@.take(i + 1).drop_last() =~= processes@.take(i as int));
            assert(processes@.take(i + 1).last() == processes@[i as int]);
        }
        insert_pid(&mut pids, processes[i].pid);
        i = i + 1;
    }
    assert(processes@.take(processes.len() as int) =~= processes@);
    pids
}

fn collect_command(processes: &[ProcessInfo], pid: i32) -> (command: String)
    ensures
        command@ == group_command(processes@, pid),
{
    let mut command = String::new();
    let mut i: usize = 0;
    assert(processes@.take(0) =~= Seq::<ProcessInfo>::empty());
    while i < processes.len()
        invariant
            i <= processes.len(),
            command@ == group_command(processes@.take(i as int), pid),
        decreases processes.len() - i,
    {
        proof {
            assert(processes@.take(i + 1).drop_last() =~= processes@.take(i as int));
            assert(processes@.take(i + 1).last() == processes@[i as int]);
        }
        if processes[i].pid == pid && command.as_str().unicode_len() == 0 {
            command = processes[i].command.clone();
        }
        i = i + 1;
    }
    assert(processes@.take(processes.len() as int) =~= processes@);
    command
}

/// The targets of a request to terminate every listed process: one target
/// per pid, in ascending order of pid, labelled with the process's command
/// and all of its ports.
pub fn collect_targets_for_all(processes: &[ProcessInfo]) -> (list: Vec<KillTarget>)
    ensures
        targets(list@) == all_targets(processes@),
        list@.len() == pids_of(processes@).len(),
        forall|i: int, j: int| 0 <= i < j < list@.len() ==> list@[i].pid < list@[j].pid,
{
    let pids = collect_pids(processes);
    proof {
        lemma_pids_of(processes@);
    }
    let mut list: Vec<KillTarget> = Vec::new();
    let mut i: usize = 0;
    while i < pids.len()
        invariant
            i <= pids.len(),
            pids@ == pids_of(processes@),
            list.len() == i,
            forall|k: int|
                0 <= k < i ==> (#[trigger] list@[k])@ == group_target(processes@, pids@[k]),
        decreases pids.len() - i,
    {
        let pid = pids[i];
        let command = collect_command(processes, pid);
        let ports = collect_ports(processes, pid);
        let label = format_command_label(command.as_str(), ports.as_slice());
        list.push(KillTarget { pid, label });
        i = i + 1;
    }
    assert(targets(list@) =~= all_targets(processes@));
    assert forall|i: int, j: int| 0 <= i < j < list@.len() implies list@[i].pid < list@[j].pid by {
        assert(list@[i]@ == group_target(processes@, pids@[i]));
        assert(list@[j]@ == group_target(processes@, pids@[j]));
    }
    list
}


/// The command shown for the process `pid` when it alone is asked for: that
/// of its first record whose command is no stand-in, or else of its last
/// record.
pub open spec fn described_command(records: Seq<ProcessInfo>, pid: i32) -> Option<Seq<char>>
    decreases records.len(),
{
    if records.len() == 0 {
        None
    } else {
        let before = described_command(records.drop_last(), pid);
        if records.last().pid == pid && (before.is_none() || is_stand_in(before.unwrap())) {
            Some(records.last().command@)
        } else {
            before
        }
    }
}

/// The target for the process `pid`, if it is among the records.
pub open spec fn described(records: Seq<ProcessInfo>, pid: i32) -> Option<Target> {
    if ports_of(records, pid).len() == 0 {
        None
    } else {
        Some(
            Target {
                pid: pid as int,
                label: label_text(
                    match described_command(records, pid) {
                        Some(command) => command,
                        None => Seq::<char>::empty(),
                    },
                    ports_of(records, pid),
                ),
            },
        )
    }
}

fn describe_command(processes: &[ProcessInfo], pid: i32) -> (command: Option<String>)
    ensures
        described_command(processes@, pid) == (match command {
            Some(text) => Some(text@),
            None => None,
        }),
{
    let mut command: Option<String> = None;
    let mut i: usize = 0;
    assert(processes@.take(0) =~= Seq::<ProcessInfo>::empty());
    while i < processes.len()
        invariant
            i <= processes.len(),
            described_command(processes@.take(i as int), pid) == (match command {
                Some(text) => Some(text@),
                None => None,
            }),
        decreases processes.len() - i,
    {
        proof {
            assert(processes@.take(i + 1).drop_last() =~= processes@.take(i as int));
            assert(processes@.take(i + 1).last() == processes@[i as int]);
        }
        if processes[i].pid == pid {
            let replace = match &command {
                None => true,
                Some(text) => {
                    let chars = to_chars(text.as_str());
                    strip_prefix(&chars, "pid ").is_some()
                },
            };
            if replace {
                command = Some(processes[i].command.clone());
            }
        }
        i = i + 1;
    }
    assert(processes@.take(processes.len() as int) =~= processes@);
    command
}

/// The target for one process: `None` when `pid` owns none of the listed
/// sockets, otherwise a target labelled with its command and all its ports.
pub fn describe_pid(pid: i32, processes: &[ProcessInfo]) -> (target: Option<KillTarget>)
    ensures
        described(processes@, pid) == (match target {
            Some(found) => Some(found@),
            None => None,
        }),
{
    let ports = collect_ports(processes, pid);
    if ports.len() == 0 {
        return None;
    }
    let label = match describe_command(processes, pid) {
        Some(command) => format_command_label(command.as_str(), ports.as_slice()),
        None => {
            let none = String::new();
            format_command_label(none.as_str(), ports.as_slice())
        },
    };
    Some(KillTarget { pid, label })
}

/// Whether `c` is a letter or a digit in the sense of Unicode: what
/// `char::is_alphanumeric` returns for it.
pub uninterp spec fn alphanumeric(c: char) -> bool;

/// Whether `c` is a letter or a digit.
///
/// Trusted: wraps `char::is_alphanumeric` of the standard library, whose
/// result depends on the character alone; the contract gives that result its
/// name and says nothing more about it.
#[verifier::external_body]
fn char_is_alphanumeric(c: char) -> (b: bool)
    ensures
        b == alphanumeric(c),
{
    c.is_alphanumeric()
}

/// Whether `c` may stand in the name of a container or a service.
pub open spec fn is_name_char(c: char) -> bool {
    alphanumeric(c) || c == '-' || c == '_' || c == '.'
}

/// `s` without the characters that may not stand in a name.
pub open spec fn sanitized(s: Seq<char>) -> Seq<char>
    decreases s.len(),
{
    if s.len() == 0 {
        Seq::<char>::empty()
    } else if is_name_char(s.last()) {
        sanitized(s.drop_last()).push(s.last())
    } else {
        sanitized(s.drop_last())
    }
}

/// The name in `v[from..]`, with every character dropped that is no letter,
/// digit, `-`, `_` or `.`.
pub(crate) fn sanitize_identifier(v: &Vec<char>, from: usize) -> (name: String)
    requires
        from <= v.len(),
    ensures
        name@ == sanitized(v@.skip(from as int)),
{
    let mut name = String::new();
    let mut i: usize = from;
    assert(v@.subrange(from as int, i as int) =~= Seq::<char>::empty());
    while i < v.len()
        invariant
            from <= i <= v.len(),
            name@ == sanitized(v@.subrange(from as int, i as int)),
        decreases v.len() - i,
    {
        let c = v[i];
        proof {
            assert(v@.subrange(from as int, i + 1).drop_last() =~= v@.subrange(
                from as int,
                i as int,
            ));
            assert(v@.subrange(from as int, i + 1).last() == c);
        }
        if char_is_alphanumeric(c) || c == '-' || c == '_' || c == '.' {
            crate::text::push_char(&mut name, c);
        }
        i = i + 1;
    }
    assert(v@.subrange(from as int, v.len() as int) =~= v@.skip(from as int));
    name
}

/// What the rest of a process entry's identifier stands for: it must begin
/// with a pid and a port, separated by `_`.
pub open spec fn process_choice(rest: Seq<char>) -> Option<Choice> {
    let parts = split(rest, '_');
    if parts.len() >= 2 {
        match (parse_signed(parts[0], -0x8000_0000, 0x7fff_ffff), parse_unsigned(parts[1], 0xffff)) {
            (Some(pid), Some(_)) => Some(Choice::KillPid(pid)),
            _ => None,
        }
    } else {
        None
    }
}

/// What the identifier of a menu entry stands for.
pub open spec fn parsed_action(raw: Seq<char>) -> Option<Choice> {
    if raw == "kill_all"@ {
        Some(Choice::KillAll)
    } else if raw == "docker_stop_all"@ {
        Some(Choice::DockerStopAll)
    } else if raw == "brew_stop_all"@ {
        Some(Choice::BrewStopAll)
    } else if raw == "quit"@ {
        Some(Choice::Quit)
    } else if raw == "edit_config"@ {
        Some(Choice::EditConfig)
    } else if raw == "launch_at_login"@ {
        Some(Choice::LaunchAtLogin)
    } else if "docker_stop_"@.is_prefix_of(raw) {
        Some(Choice::DockerStop(sanitized(raw.skip("docker_stop_"@.len() as int))))
    } else if "brew_stop_"@.is_prefix_of(raw) {
        Some(Choice::BrewStop(sanitized(raw.skip("brew_stop_"@.len() as int))))
    } else if "process_"@.is_prefix_of(raw) {
        process_choice(raw.skip("process_"@.len() as int))
    } else {
        None
    }
}

fn parse_process_entry(rest: &Vec<char>) -> (action: Option<MenuAction>)
    ensures
        process_choice(rest@) == (match action {
            Some(found) => Some(found@),
            None => None,
        }),
{
    let parts = split_chars(rest, '_');
    if parts.len() < 2 {
        return None;
    }
    proof {
        assert(pieces(parts@)[0] == parts@[0]@);
        assert(pieces(parts@)[1] == parts@[1]@);
        assert(parts@[0]@.subrange(0, parts@[0]@.len() as int) =~= parts@[0]@);
        assert(parts@[1]@.subrange(0, parts@[1]@.len() as int) =~= parts@[1]@);
    }
    let pid = parse_i32_range(&parts[0], 0, parts[0].len());
    let port = parse_u16_range(&parts[1], 0, parts[1].len());
    match (pid, port) {
        (Some(pid), Some(_)) => Some(MenuAction::KillPid { pid }),
        _ => None,
    }
}

/// What the identifier of a menu entry stands for; `None` for an identifier
/// that no entry has.
pub fn parse_menu_action(id: &str) -> (action: Option<MenuAction>)
    ensures
        parsed_action(id@) == (match action {
            Some(found) => Some(found@),
            None => None,
        }),
{
    let raw = to_chars(id);
    if chars_equal_str(&raw, "kill_all") {
        return Some(MenuAction::KillAll);
    }
    if chars_equal_str(&raw, "docker_stop_all") {
        return Some(MenuAction::DockerStopAll);
    }
    if chars_equal_str(&raw, "brew_stop_all") {
        return Some(MenuAction::BrewStopAll);
    }
    if chars_equal_str(&raw, "quit") {
        return Some(MenuAction::Quit);
    }
    if chars_equal_str(&raw, "edit_config") {
        return Some(MenuAction::EditConfig);
    }
    if chars_equal_str(&raw, "launch_at_login") {
        return Some(MenuAction::LaunchAtLogin);
    }
    match strip_prefix(&raw, "docker_stop_") {
        Some(from) => {
            return Some(MenuAction::DockerStop { container: sanitize_identifier(&raw, from) });
        },
        None => {},
    }
    match strip_prefix(&raw, "brew_stop_") {
        Some(from) => {
            return Some(MenuAction::BrewStop { service: sanitize_identifier(&raw, from) });
        },
        None => {},
    }
    match strip_prefix(&raw, "process_") {
        Some(from) => {
            let rest = tail_chars(&raw, from);
            parse_process_entry(&rest)
        },
        None => None,
    }
}


/// Lists that hold the same listeners give the same ports, pids and
/// commands for every process, and so the same targets.
pub proof fn lemma_targets_depend_on_content(a: Seq<ProcessInfo>, b: Seq<ProcessInfo>)
    requires
        listeners(a) == listeners(b),
    ensures
        pids_of(a) == pids_of(b),
        forall|pid: i32| #[trigger] ports_of(a, pid) == ports_of(b, pid),
        forall|pid: i32| #[trigger] group_command(a, pid) == group_command(b, pid),
        forall|pid: i32| #[trigger] described_command(a, pid) == described_command(b, pid),
        all_targets(a) == all_targets(b),
    decreases a.len(),
{
    assert(a.len() == listeners(a).len());
    assert(b.len() == listeners(b).len());
    if a.len() > 0 {
        assert(listeners(a.drop_last()) =~= listeners(a).drop_last());
        assert(listeners(b.drop_last()) =~= listeners(b).drop_last());
        lemma_targets_depend_on_content(a.drop_last(), b.drop_last());
        assert(listeners(a).last() == a.last()@);
        assert(listeners(b).last() == b.last()@);
        assert(a.last().pid == b.last().pid);
        assert(a.last().port == b.last().port);
        assert(a.last().command@ == b.last().command@);
        assert forall|pid: i32| #[trigger] ports_of(a, pid) == ports_of(b, pid) by {
            assert(ports_of(a.drop_last(), pid) == ports_of(b.drop_last(), pid));
        }
        assert forall|pid: i32| #[trigger] group_command(a, pid) == group_command(b, pid) by {
            assert(group_command(a.drop_last(), pid) == group_command(b.drop_last(), pid));
        }
        assert forall|pid: i32| #[trigger]
            described_command(a, pid) == described_command(b, pid) by {
            assert(described_command(a.drop_last(), pid) == described_command(b.drop_last(), pid));
        }
    }
    assert(all_targets(a) =~= all_targets(b)) by {
        assert forall|i: int| 0 <= i < pids_of(a).len() implies group_target(a, pids_of(a)[i])
            == group_target(b, pids_of(a)[i]) by {
            assert(ports_of(a, pids_of(a)[i]) == ports_of(b, pids_of(a)[i]));
            assert(group_command(a, pids_of(a)[i]) == group_command(b, pids_of(a)[i]));
        }
    }
}


/// The identifier made for a process entry stands for terminating that
/// process: parsing what `process_menu_id` writes gives the pid back.
pub proof fn lemma_menu_id_round_trip(pid: i32, port: u16)
    ensures
        parsed_action(process_menu_id_text(pid as int, port as int)) == Some(
            Choice::KillPid(pid as int),
        ),
{
    reveal_strlit("process_");
    reveal_strlit("_");
    reveal_strlit("kill_all");
    reveal_strlit("docker_stop_all");
    reveal_strlit("brew_stop_all");
    reveal_strlit("quit");
    reveal_strlit("edit_config");
    reveal_strlit("launch_at_login");
    reveal_strlit("docker_stop_");
    reveal_strlit("brew_stop_");
    let raw = process_menu_id_text(pid as int, port as int);
    let prefix = "process_"@;
    let first = decimal(pid as int);
    let second = decimal(port as int);
    assert(raw[0] == prefix[0]);
    assert(raw[0] == 'p');
    assert("kill_all"@[0] == 'k');
    assert("docker_stop_all"@[0] == 'd');
    assert("brew_stop_all"@[0] == 'b');
    assert("quit"@[0] == 'q');
    assert("edit_config"@[0] == 'e');
    assert("launch_at_login"@[0] == 'l');
    if "docker_stop_"@.is_prefix_of(raw) {
        assert(raw.subrange(0, "docker_stop_"@.len() as int)[0] == 'd');
    }
    if "brew_stop_"@.is_prefix_of(raw) {
        assert(raw.subrange(0, "brew_stop_"@.len() as int)[0] == 'b');
    }
    assert(raw.subrange(0, prefix.len() as int) =~= prefix);
    let rest = raw.skip(prefix.len() as int);
    assert("_"@ =~= seq!['_']);
    assert(rest =~= first + seq!['_'] + second);
    lemma_decimal_reads_back(pid as int, -0x8000_0000, 0x7fff_ffff);
    lemma_decimal_reads_back(port as int, 0, 0xffff);
    lemma_split_in_two(first, second, '_');
}

} // verus!
