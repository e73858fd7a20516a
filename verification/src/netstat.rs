//! Reading the table that `netstat -ano -p TCP` prints: one connection per
//! line, as protocol, local address, foreign address, state and pid.

use crate::model::{listeners, Listener, ProcessInfo, ScanError, ToolReport};
use crate::snapshot::{
    ascending_keys, has_key, in_ranges, insert_by_key, lemma_ascending_keys_sorted,
    lemma_has_key_by_content, lemma_record_order_is_total, port_in_ranges, record_order,
    sorted_listeners, stand_in, stand_in_name,
};
use crate::text::{
    chars_equal_str, parse_i32_range, parse_signed, parse_u16_range, parse_unsigned, pieces, split,
    split_chars, split_words, tail_after_last, tail_start, to_chars, words,
};
use vstd::prelude::*;
use vstd::seq_lib::{lemma_sorted_unique, to_multiset_build};

verus! {

/// The port of a local address such as `0.0.0.0:3000` or `[::]:3000`.
///
/// An address with a `[` in it is an IPv6 address: its port is what follows
/// `]:` at its last `]`. Any other address has its port after its last `:`.
/// The port is a number of at most 16 bits.
pub open spec fn address_port(addr: Seq<char>) -> Option<int> {
    if addr.contains('[') {
        let after = tail_after_last(addr, ']');
        if addr.contains(']') && after.len() > 0 && after[0] == ':' {
            parse_unsigned(after.skip(1), 0xffff)
        } else {
            None
        }
    } else {
        parse_unsigned(tail_after_last(addr, ':'), 0xffff)
    }
}

fn holds_char(v: &Vec<char>, c: char) -> (found: bool)
    ensures
        found == v@.contains(c),
{
    let mut i: usize = 0;
    while i < v.len()
        invariant
            i <= v.len(),
            forall|k: int| 0 <= k < i ==> v@[k] != c,
        decreases v.len() - i,
    {
        if v[i] == c {
            return true;
        }
        i = i + 1;
    }
    false
}

/// The port of a local address, given its characters.
pub fn port_of_address(addr: &Vec<char>) -> (port: Option<u16>)
    ensures
        address_port(addr@) == (match port {
            Some(p) => Some(p as int),
            None => None,
        }),
{
    if holds_char(addr, '[') {
        let from = tail_start(addr, ']');
        if from > 0 && from < addr.len() && addr[from] == ':' {
            proof {
                let after = addr@.skip(from as int);
                assert(after[0] == addr@[from as int]);
                assert(after.skip(1) =~= addr@.subrange(from + 1, addr.len() as int));
            }
            parse_u16_range(addr, from + 1, addr.len())
        } else {
            proof {
                let after = addr@.skip(from as int);
                if from < addr.len() {
                    assert(after[0] == addr@[from as int]);
                }
            }
            None
        }
    } else {
        let from = tail_start(addr, ':');
        assert(addr@.skip(from as int) =~= addr@.subrange(from as int, addr.len() as int));
        parse_u16_range(addr, from, addr.len())
    }
}

/// The port of a local address such as `0.0.0.0:3000`, `127.0.0.1:8080` or
/// `[::1]:3000`; `None` for text that ends in no port.
pub fn parse_port_from_address(addr: &str) -> (port: Option<u16>)
    ensures
        address_port(addr@) == (match port {
            Some(p) => Some(p as int),
            None => None,
        }),
{
    let chars = to_chars(addr);
    port_of_address(&chars)
}

/// The port and pid of the listening socket that a line describes: a line
/// of at least five words for the protocol `TCP` in the state `LISTENING`,
/// with a readable port and a pid other than 0.
pub open spec fn line_socket(line: Seq<char>) -> Option<(int, int)> {
    let fields = words(line);
    if fields.len() >= 5 && fields[0] == "TCP"@ && fields[3] == "LISTENING"@ {
        match (address_port(fields[1]), parse_signed(fields[4], -0x8000_0000, 0x7fff_ffff)) {
            (Some(port), Some(pid)) => if pid != 0 {
                Some((port, pid))
            } else {
                None
            },
            _ => None,
        }
    } else {
        None
    }
}

/// The listeners that `lines` describe within `ranges`, in the order of
/// their lines, each `(port, pid)` once, under their stand-in names.
pub open spec fn kept(lines: Seq<Seq<char>>, ranges: Seq<(u16, u16)>) -> Seq<Listener>
    decreases lines.len(),
{
    if lines.len() == 0 {
        Seq::<Listener>::empty()
    } else {
        let before = kept(lines.drop_last(), ranges);
        match line_socket(lines.last()) {
            Some((port, pid)) => if in_ranges(port, ranges) && !has_key(before, port, pid) {
                before.push(Listener { port, pid, command: stand_in_name(pid) })
            } else {
                before
            },
            None => before,
        }
    }
}

/// The snapshot that a table describes.
pub open spec fn netstat_listeners(table: Seq<char>, ranges: Seq<(u16, u16)>) -> Seq<Listener> {
    sorted_listeners(kept(split(table, '\n'), ranges))
}

fn socket_of_line(line: &Vec<char>) -> (socket: Option<(u16, i32)>)
    ensures
        line_socket(line@) == (match socket {
            Some((port, pid)) => Some((port as int, pid as int)),
            None => None,
        }),
{
    let fields = split_words(line);
    if fields.len() < 5 {
        return None;
    }
    proof {
        assert(pieces(fields@)[0] == fields@[0]@);
        assert(pieces(fields@)[1] == fields@[1]@);
        assert(pieces(fields@)[3] == fields@[3]@);
        assert(pieces(fields@)[4] == fields@[4]@);
        assert(fields@[4]@.subrange(0, fields@[4]@.len() as int) =~= fields@[4]@);
    }
    if !chars_equal_str(&fields[0], "TCP") || !chars_equal_str(&fields[3], "LISTENING") {
        return None;
    }
    let port = port_of_address(&fields[1]);
    let pid = parse_i32_range(&fields[4], 0, fields[4].len());
    match (port, pid) {
        (Some(port), Some(pid)) => if pid != 0 {
            Some((port, pid))
        } else {
            None
        },
        _ => None,
    }
}

/// Reads a table and returns the listeners within `ranges` as a snapshot,
/// under their stand-in names.
pub fn listeners_from_netstat(table: &str, ranges: &[(u16, u16)]) -> (records: Vec<ProcessInfo>)
    ensures
        listeners(records@) == netstat_listeners(table@, ranges@),
        ascending_keys(listeners(records@)),
{
    let chars = to_chars(table);
    let lines = split_chars(&chars, '\n');
    let ghost all = pieces(lines@);
    let mut records: Vec<ProcessInfo> = Vec::new();
    let mut i: usize = 0;
    proof {
        assert(all.take(0) =~= Seq::<Seq<char>>::empty());
        assert(listeners(records@) =~= Seq::<Listener>::empty());
    }
    while i < lines.len()
        invariant
            i <= lines.len(),
            all == pieces(lines@),
            ascending_keys(listeners(records@)),
            listeners(records@).to_multiset() == kept(all.take(i as int), ranges@).to_multiset(),
        decreases lines.len() - i,
    {
        let ghost before = kept(all.take(i as int), ranges@);
        proof {
            assert(all.take(i + 1).drop_last() =~= all.take(i as int));
            assert(all.take(i + 1).last() == lines@[i as int]@);
        }
        match socket_of_line(&lines[i]) {
            Some((port, pid)) => {
                if port_in_ranges(port, ranges) {
                    let found = ProcessInfo { port, pid, command: stand_in(pid) };
                    proof {
                        lemma_has_key_by_content(
                            listeners(records@),
                            before,
                            port as int,
                            pid as int,
                        );
                        to_multiset_build(before, found@);
                    }
                    insert_by_key(&mut records, found);
                }
            },
            None => {},
        }
        i = i + 1;
    }
    proof {
        assert(all.take(lines.len() as int) =~= all);
        let wanted = kept(all, ranges@);
        lemma_record_order_is_total();
        lemma_ascending_keys_sorted(listeners(records@));
        wanted.lemma_sort_by_ensures(record_order());
        lemma_sorted_unique(listeners(records@), sorted_listeners(wanted), record_order());
    }
    records
}

/// What a scan yields for a given report of the tool: the snapshot it
/// describes, or the message of the failure.
pub open spec fn netstat_scan(ranges: Seq<(u16, u16)>, report: ToolReport) -> Result<
    Seq<Listener>,
    Seq<char>,
> {
    match report {
        ToolReport::NotStarted { reason } => Err("failed to execute netstat"@),
        ToolReport::Exited { success, stdout, stderr } => if success {
            Ok(netstat_listeners(stdout@, ranges))
        } else {
            Err("netstat failed: "@ + stderr@)
        },
    }
}

/// Turns the report of one `netstat` run into a snapshot of the listeners
/// within `port_ranges`: sorted by `(port, pid)`, no key twice, each under
/// its stand-in name. A run that could not be started or that exited with
/// a failure gives a [`ScanError`].
pub fn scan_ports(port_ranges: &[(u16, u16)], report: &ToolReport) -> (result: Result<
    Vec<ProcessInfo>,
    ScanError,
>)
    ensures
        match netstat_scan(port_ranges@, *report) {
            Ok(snapshot) => result matches Ok(records) && listeners(records@) == snapshot
                && ascending_keys(snapshot),
            Err(message) => result matches Err(error) && error.message@ == message,
        },
{
    match report {
        ToolReport::NotStarted { reason } => Err(
            ScanError { message: String::from_str("failed to execute netstat") },
        ),
        ToolReport::Exited { success, stdout, stderr } => {
            if *success {
                Ok(listeners_from_netstat(stdout.as_str(), port_ranges))
            } else {
                let mut message = String::from_str("netstat failed: ");
                message.append(stderr.as_str());
                Err(ScanError { message })
            }
        },
    }
}

/// The name found for the record at position `i`, if one was found: there
/// is a name at that position and it is not empty.
pub open spec fn name_at(names: Seq<Option<String>>, i: int) -> Option<Seq<char>> {
    if 0 <= i < names.len() && names[i].is_some() && names[i].unwrap()@.len() > 0 {
        Some(names[i].unwrap()@)
    } else {
        None
    }
}

/// The records with the names that were found for their processes: the
/// record at each position takes the name found for that position, and
/// keeps its command, the stand-in, where none was found.
pub open spec fn named(records: Seq<ProcessInfo>, names: Seq<Option<String>>) -> Seq<Listener> {
    Seq::new(
        records.len(),
        |i: int|
            Listener {
                port: records[i].port as int,
                pid: records[i].pid as int,
                command: match name_at(names, i) {
                    Some(name) => name,
                    None => records[i].command@,
                },
            },
    )
}

/// Gives the records the process names that were found for them, position
/// by position. Ports and pids stay as they are, and so does their order.
pub fn with_process_names(records: &Vec<ProcessInfo>, names: &Vec<Option<String>>) -> (out: Vec<
    ProcessInfo,
>)
    ensures
        listeners(out@) == named(records@, names@),
        ascending_keys(listeners(records@)) ==> ascending_keys(listeners(out@)),
{
    let mut out: Vec<ProcessInfo> = Vec::new();
    let mut i: usize = 0;
    while i < records.len()
        invariant
            i <= records.len(),
            out.len() == i,
            forall|k: int| 0 <= k < i ==> (#[trigger] out@[k])@ == named(records@, names@)[k],
        decreases records.len() - i,
    {
        let found = if i < names.len() {
            match &names[i] {
                Some(name) => if name.as_str().unicode_len() > 0 {
                    Some(name.clone())
                } else {
                    None
                },
                None => None,
            }
        } else {
            None
        };
        let command = match found {
            Some(name) => name,
            None => records[i].command.clone(),
        };
        out.push(ProcessInfo { port: records[i].port, pid: records[i].pid, command });
        i = i + 1;
    }
    assert(listeners(out@) =~= named(records@, names@));
    proof {
        if ascending_keys(listeners(records@)) {
            assert forall|p: int, q: int| 0 <= p < q < out@.len() implies crate::snapshot::key_lt(
                #[trigger] listeners(out@)[p],
                #[trigger] listeners(out@)[q],
            ) by {
                assert(crate::snapshot::key_lt(listeners(records@)[p], listeners(records@)[q]));
            }
        }
    }
    out
}

/// Whether a line shows `pid` as a listener: at least five words, for the
/// protocol `TCP` in the state `LISTENING`, the fifth being the pid.
pub open spec fn line_shows_pid(line: Seq<char>, pid: int) -> bool {
    let fields = words(line);
    fields.len() >= 5 && fields[0] == "TCP"@ && fields[3] == "LISTENING"@ && parse_signed(
        fields[4],
        -0x8000_0000,
        0x7fff_ffff,
    ) == Some(pid)
}

/// Whether some line shows `pid` as a listener.
pub open spec fn lists_pid(lines: Seq<Seq<char>>, pid: int) -> bool {
    exists|i: int| 0 <= i < lines.len() && line_shows_pid(#[trigger] lines[i], pid)
}

/// Whether a report of `netstat` shows that `pid` still listens.
pub open spec fn still_listening(pid: int, report: ToolReport) -> bool {
    match report {
        ToolReport::NotStarted { reason } => false,
        ToolReport::Exited { success, stdout, stderr } => lists_pid(split(stdout@, '\n'), pid),
    }
}

fn line_lists_pid(line: &Vec<char>, pid: i32) -> (listed: bool)
    ensures
        listed == line_shows_pid(line@, pid as int),
{
    let fields = split_words(line);
    if fields.len() < 5 {
        return false;
    }
    proof {
        assert(pieces(fields@)[0] == fields@[0]@);
        assert(pieces(fields@)[3] == fields@[3]@);
        assert(pieces(fields@)[4] == fields@[4]@);
        assert(fields@[4]@.subrange(0, fields@[4]@.len() as int) =~= fields@[4]@);
    }
    if !chars_equal_str(&fields[0], "TCP") || !chars_equal_str(&fields[3], "LISTENING") {
        return false;
    }
    match parse_i32_range(&fields[4], 0, fields[4].len()) {
        Some(found) => found == pid,
        None => false,
    }
}

fn table_lists_pid(table: &str, pid: i32) -> (listed: bool)
    ensures
        listed == lists_pid(split(table@, '\n'), pid as int),
{
    let chars = to_chars(table);
    let lines = split_chars(&chars, '\n');
    let ghost all = pieces(lines@);
    let mut i: usize = 0;
    while i < lines.len()
        invariant
            i <= lines.len(),
            all == pieces(lines@),
            all == split(table@, '\n'),
            forall|k: int| 0 <= k < i ==> !line_shows_pid(#[trigger] all[k], pid as int),
        decreases lines.len() - i,
    {
        assert(all[i as int] == lines@[i as int]@);
        if line_lists_pid(&lines[i], pid) {
            return true;
        }
        i = i + 1;
    }
    false
}

/// Whether the process `pid` is still a listener, going by the report of a
/// fresh `netstat` run: it is when some line shows it in the state
/// `LISTENING`.
///
/// This check narrows the window in which a recycled pid could be
/// terminated; it cannot close it.
pub fn verify_pid_is_listener(pid: i32, report: &ToolReport) -> (listening: bool)
    ensures
        listening == still_listening(pid as int, *report),
{
    match report {
        ToolReport::NotStarted { reason } => false,
        ToolReport::Exited { success, stdout, stderr } => table_lists_pid(stdout.as_str(), pid),
    }
}

/// No listener within the ranges is dropped: a line that describes a
/// listening socket on a port within the ranges has a record with its port
/// and pid among those kept.
pub proof fn lemma_kept_holds_every_socket(lines: Seq<Seq<char>>, ranges: Seq<(u16, u16)>, i: int)
    requires
        0 <= i < lines.len(),
        line_socket(lines[i]).is_some(),
        in_ranges(line_socket(lines[i]).unwrap().0, ranges),
    ensures
        has_key(kept(lines, ranges), line_socket(lines[i]).unwrap().0, line_socket(lines[i]).unwrap().1),
    decreases lines.len(),
{
    let (port, pid) = line_socket(lines[i]).unwrap();
    let shorter = lines.drop_last();
    let before = kept(shorter, ranges);
    let after = kept(lines, ranges);
    if i == lines.len() - 1 {
        if !has_key(before, port, pid) {
            let found = Listener { port, pid, command: stand_in_name(pid) };
            assert(after == before.push(found));
            assert(after[before.len() as int] == found);
        }
    } else {
        assert(shorter[i] == lines[i]);
        lemma_kept_holds_every_socket(shorter, ranges, i);
        let k = choose|k: int|
            0 <= k < before.len() && (#[trigger] before[k]).port == port && before[k].pid == pid;
        assert(after[k] == before[k]);
    }
}

/// The snapshot of a table holds every listener within the ranges that the
/// table describes.
pub proof fn lemma_scan_is_complete(table: Seq<char>, ranges: Seq<(u16, u16)>, i: int)
    requires
        0 <= i < split(table, '\n').len(),
        line_socket(split(table, '\n')[i]).is_some(),
        in_ranges(line_socket(split(table, '\n')[i]).unwrap().0, ranges),
    ensures
        has_key(
            netstat_listeners(table, ranges),
            line_socket(split(table, '\n')[i]).unwrap().0,
            line_socket(split(table, '\n')[i]).unwrap().1,
        ),
{
    let lines = split(table, '\n');
    let (port, pid) = line_socket(lines[i]).unwrap();
    lemma_kept_holds_every_socket(lines, ranges, i);
    lemma_record_order_is_total();
    kept(lines, ranges).lemma_sort_by_ensures(record_order());
    lemma_has_key_by_content(kept(lines, ranges), netstat_listeners(table, ranges), port, pid);
}

} // verus!
