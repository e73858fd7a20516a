//! Reading the field output of `lsof` (`-F` with the fields `p`, `c`, `n`):
//! one field per line, the first character naming the field. A `p` line
//! opens a process, a `c` line gives its command, and each `n` line names
//! one of its sockets. A process whose command the listing does not name
//! is recorded under the stand-in name `pid N`.

use crate::model::{listeners, Listener, ProcessInfo, ScanError, ToolReport};
use crate::snapshot::{
    ascending_keys, has_key, in_ranges, insert_by_key, is_stand_in, lemma_ascending_keys_sorted,
    lemma_has_key_by_content, lemma_record_order_is_total, lemma_stand_in_is_recognised,
    port_in_ranges, record_order, sorted_listeners, stand_in, stand_in_name,
};
use crate::text::{
    all_digits, char_is_digit, contains_str, digit_value, digits_value, from_chars, has_substring,
    is_digit, parse_i32_range, parse_signed, pieces, split, split_chars, tail_after_last,
    tail_start, to_chars, trim, trimmed_chars,
};
use vstd::prelude::*;
use vstd::seq_lib::{lemma_sorted_unique, to_multiset_build};

verus! {

/// `s` without its closing brackets.
pub open spec fn brackets_removed(s: Seq<char>) -> Seq<char>
    decreases s.len(),
{
    if s.len() == 0 {
        Seq::<char>::empty()
    } else if s.last() == ']' {
        brackets_removed(s.drop_last())
    } else {
        brackets_removed(s.drop_last()).push(s.last())
    }
}

/// Whether `s` holds nothing but digits and closing brackets.
pub open spec fn digits_or_brackets(s: Seq<char>) -> bool {
    forall|i: int| 0 <= i < s.len() ==> is_digit(#[trigger] s[i]) || s[i] == ']'
}

/// The port named by the name field of a socket, such as `*:3000`,
/// `127.0.0.1:5173` or `[::1]:8000`.
///
/// A name with `->` in it describes a connection, not a listener, and names
/// no port. Otherwise the port is the number written after the last `:`; it
/// must be made of digits and fit in 16 bits.
pub open spec fn lsof_port(name: Seq<char>) -> Option<int> {
    let tail = tail_after_last(name, ':');
    let digits = brackets_removed(tail);
    if has_substring(name, "->"@) || !digits_or_brackets(tail) || digits.len() == 0
        || digits_value(digits) > 0xffff {
        None
    } else {
        Some(digits_value(digits))
    }
}

/// The port named by the characters of a socket name.
pub fn port_from_chars(name: &Vec<char>) -> (port: Option<u16>)
    ensures
        lsof_port(name@) == (match port {
            Some(p) => Some(p as int),
            None => None,
        }),
{
    if contains_str(name, "->") {
        return None;
    }
    let start = tail_start(name, ':');
    let ghost tail = name@.subrange(start as int, name.len() as int);
    assert(name@.skip(start as int) =~= tail);
    let mut value: u32 = 0;
    let mut over: bool = false;
    let mut seen: bool = false;
    let mut i: usize = start;
    assert(name@.subrange(start as int, i as int) =~= Seq::<char>::empty());
    while i < name.len()
        invariant
            start <= i <= name.len(),
            tail == name@.subrange(start as int, name.len() as int),
            tail_after_last(name@, ':') == tail,
            !has_substring(name@, "->"@),
            digits_or_brackets(name@.subrange(start as int, i as int)),
            all_digits(brackets_removed(name@.subrange(start as int, i as int))),
            seen == (brackets_removed(name@.subrange(start as int, i as int)).len() > 0),
            digits_value(brackets_removed(name@.subrange(start as int, i as int))) >= 0,
            !over ==> value == digits_value(
                brackets_removed(name@.subrange(start as int, i as int)),
            ) && value <= 0xffff,
            over ==> digits_value(brackets_removed(name@.subrange(start as int, i as int)))
                > 0xffff,
        decreases name.len() - i,
    {
        let c = name[i];
        let ghost done = name@.subrange(start as int, i as int);
        let ghost next = name@.subrange(start as int, i + 1);
        proof {
            assert(next.drop_last() =~= done);
            assert(next.last() == c);
        }
        if char_is_digit(c) {
            let d: u32 = (c as u32) - ('0' as u32);
            proof {
                let digits = brackets_removed(next);
                assert(digits == brackets_removed(done).push(c));
                assert(digits.drop_last() =~= brackets_removed(done));
                assert(digits.last() == c);
                assert(d == digit_value(c));
                assert forall|k: int| 0 <= k < digits.len() implies is_digit(
                    #[trigger] digits[k],
                ) by {
                    if k < digits.len() - 1 {
                        assert(digits[k] == brackets_removed(done)[k]);
                    }
                }
            }
            if !over {
                let wider: u32 = value * 10 + d;
                if wider > 0xffff {
                    over = true;
                } else {
                    value = wider;
                }
            }
            seen = true;
        } else if c != ']' {
            assert(tail[i - start] == c);
            return None;
        }
        i = i + 1;
        proof {
            assert forall|k: int| 0 <= k < next.len() implies is_digit(#[trigger] next[k])
                || next[k] == ']' by {
                if k < done.len() {
                    assert(next[k] == done[k]);
                }
            }
        }
    }
    assert(name@.subrange(start as int, name.len() as int) == tail);
    if !seen || over {
        None
    } else {
        Some(value as u16)
    }
}

/// The port named by the name field of a socket, such as `*:3000`,
/// `127.0.0.1:5173` or `[::1]:8000`; `None` for a connection (`a->b`) and
/// for a name that ends in no port number.
pub fn parse_port_from_lsof(name: &str) -> (port: Option<u16>)
    ensures
        lsof_port(name@) == (match port {
            Some(p) => Some(p as int),
            None => None,
        }),
{
    let chars = to_chars(name);
    port_from_chars(&chars)
}

/// What the lines read so far say about the process being described.
pub struct LsofCursor {
    pub pid: Option<int>,
    pub command: Option<Seq<char>>,
}

/// The value of a field line: what follows the field's letter, trimmed.
pub open spec fn field_value(line: Seq<char>) -> Seq<char> {
    trim(line.skip(1))
}

/// The cursor after one more line. A `p` line opens a new process and
/// forgets the command; a `c` line sets the command; other lines change
/// nothing.
pub open spec fn cursor_step(cursor: LsofCursor, line: Seq<char>) -> LsofCursor {
    if line.len() == 0 {
        cursor
    } else if line[0] == 'p' {
        LsofCursor {
            pid: parse_signed(field_value(line), -0x8000_0000, 0x7fff_ffff),
            command: None,
        }
    } else if line[0] == 'c' {
        LsofCursor { pid: cursor.pid, command: Some(field_value(line)) }
    } else {
        cursor
    }
}

/// The cursor after all of `lines`.
pub open spec fn cursor_after(lines: Seq<Seq<char>>) -> LsofCursor
    decreases lines.len(),
{
    if lines.len() == 0 {
        LsofCursor { pid: None, command: None }
    } else {
        cursor_step(cursor_after(lines.drop_last()), lines.last())
    }
}

/// The command under which the sockets of the current process are
/// recorded: the one its `c` line gave, or the stand-in `pid N` where the
/// listing holds no such line for it or the line names nothing.
pub open spec fn cursor_command(cursor: LsofCursor) -> Seq<char> {
    match cursor.command {
        Some(command) if command.len() > 0 => command,
        _ => match cursor.pid {
            Some(pid) => stand_in_name(pid),
            None => Seq::<char>::empty(),
        },
    }
}

/// The listener that a line describes, given what came before it: an `n`
/// line that names a port, under a process whose pid is known. Whether the
/// command of that process is known makes no difference to whether the
/// socket is recorded, only to the name it is recorded under.
pub open spec fn line_candidate(cursor: LsofCursor, line: Seq<char>) -> Option<Listener> {
    if line.len() > 0 && line[0] == 'n' && cursor.pid.is_some() {
        match lsof_port(field_value(line)) {
            Some(port) => Some(
                Listener { port, pid: cursor.pid.unwrap(), command: cursor_command(cursor) },
            ),
            None => None,
        }
    } else {
        None
    }
}

/// The listeners that `lines` describe within `ranges`, in the order of
/// their lines, each `(port, pid)` once: where a key comes up again, the
/// first record stays.
pub open spec fn kept(lines: Seq<Seq<char>>, ranges: Seq<(u16, u16)>) -> Seq<Listener>
    decreases lines.len(),
{
    if lines.len() == 0 {
        Seq::<Listener>::empty()
    } else {
        let before = kept(lines.drop_last(), ranges);
        match line_candidate(cursor_after(lines.drop_last()), lines.last()) {
            Some(found) => if in_ranges(found.port, ranges) && !has_key(
                before,
                found.port,
                found.pid,
            ) {
                before.push(found)
            } else {
                before
            },
            None => before,
        }
    }
}

/// The snapshot that a listing describes: the listeners within `ranges`,
/// each `(port, pid)` once, in ascending order.
pub open spec fn lsof_listeners(listing: Seq<char>, ranges: Seq<(u16, u16)>) -> Seq<Listener> {
    sorted_listeners(kept(split(listing, '\n'), ranges))
}

/// The cursor as it is kept while a listing is read.
pub struct Cursor {
    pub pid: Option<i32>,
    pub command: Option<Vec<char>>,
}

impl View for Cursor {
    type V = LsofCursor;

    open spec fn view(&self) -> LsofCursor {
        LsofCursor {
            pid: match self.pid {
                Some(pid) => Some(pid as int),
                None => None,
            },
            command: match self.command {
                Some(command) => Some(command@),
                None => None,
            },
        }
    }
}

fn advance(cursor: Cursor, line: &Vec<char>) -> (next: Cursor)
    ensures
        next@ == cursor_step(cursor@, line@),
{
    if line.len() == 0 {
        return cursor;
    }
    assert(line@.skip(1) =~= line@.subrange(1, line.len() as int));
    let tag = line[0];
    if tag == 'p' {
        let (from, to) = crate::text::trim_range(line, 1, line.len());
        let pid = parse_i32_range(line, from, to);
        Cursor { pid, command: None }
    } else if tag == 'c' {
        Cursor { pid: cursor.pid, command: Some(trimmed_chars(line, 1, line.len())) }
    } else {
        cursor
    }
}

fn candidate(cursor: &Cursor, line: &Vec<char>) -> (found: Option<ProcessInfo>)
    ensures
        match line_candidate(cursor@, line@) {
            Some(listener) => found matches Some(record) && record@ == listener,
            None => found.is_none(),
        },
{
    if line.len() == 0 || line[0] != 'n' {
        return None;
    }
    assert(line@.skip(1) =~= line@.subrange(1, line.len() as int));
    match cursor.pid {
        Some(pid) => {
            let name = trimmed_chars(line, 1, line.len());
            match port_from_chars(&name) {
                Some(port) => {
                    let command = match &cursor.command {
                        Some(command) => if command.len() > 0 {
                            from_chars(command)
                        } else {
                            stand_in(pid)
                        },
                        None => stand_in(pid),
                    };
                    Some(ProcessInfo { port, pid, command })
                },
                None => None,
            }
        },
        None => None,
    }
}

/// Reads a listing and returns the listeners within `ranges` as a snapshot.
pub fn listeners_from_lsof(listing: &str, ranges: &[(u16, u16)]) -> (records: Vec<ProcessInfo>)
    ensures
        listeners(records@) == lsof_listeners(listing@, ranges@),
        ascending_keys(listeners(records@)),
{
    let chars = to_chars(listing);
    let lines = split_chars(&chars, '\n');
    let ghost all = pieces(lines@);
    let mut cursor = Cursor { pid: None, command: None };
    let mut records: Vec<ProcessInfo> = Vec::new();
    let mut i: usize = 0;
    proof {
        assert(all.take(0) =~= Seq::<Seq<char>>::empty());
        assert(listeners(records@) =~= Seq::<Listener>::empty());
    }
    while i < lines.len()
        invariant
            i <= lines.len(),
            all == pieces(lines@),
            cursor@ == cursor_after(all.take(i as int)),
            ascending_keys(listeners(records@)),
            listeners(records@).to_multiset() == kept(all.take(i as int), ranges@).to_multiset(),
        decreases lines.len() - i,
    {
        let line = &lines[i];
        let ghost before = kept(all.take(i as int), ranges@);
        proof {
            assert(all.take(i + 1).drop_last() =~= all.take(i as int));
            assert(all.take(i + 1).last() == line@);
        }
        match candidate(&cursor, line) {
            Some(found) => {
                if port_in_ranges(found.port, ranges) {
                    proof {
                        lemma_has_key_by_content(
                            listeners(records@),
                            before,
                            found.port as int,
                            found.pid as int,
                        );
                        to_multiset_build(before, found@);
                    }
                    insert_by_key(&mut records, found);
                }
            },
            None => {},
        }
        cursor = advance(cursor, line);
        i = i + 1;
    }
    proof {
        assert(all.take(lines.len() as int) =~= all);
        let wanted = kept(all, ranges@);
        lemma_record_order_is_total();
        lemma_ascending_keys_sorted(listeners(records@));
        wanted.lemma_sort_by_ensures(record_order());
        lemma_sorted_unique(listeners(records@), sorted_listeners(wanted), record_order());
    }
    records
}


/// What a scan yields for a given report of the tool: the snapshot it
/// lists, or the message of the failure.
pub open spec fn lsof_scan(ranges: Seq<(u16, u16)>, report: ToolReport) -> Result<
    Seq<Listener>,
    Seq<char>,
> {
    match report {
        ToolReport::NotStarted { reason } => Err("failed to execute lsof sweep"@),
        ToolReport::Exited { success, stdout, stderr } => if success {
            Ok(lsof_listeners(stdout@, ranges))
        } else {
            Err("lsof sweep failed: "@ + stderr@)
        },
    }
}

/// Turns the report of one `lsof` sweep into a snapshot of the listeners
/// within `port_ranges`: sorted by `(port, pid)`, no key twice, however the
/// ranges overlap. A sweep that could not be started or that exited with a
/// failure gives a [`ScanError`].
pub fn scan_ports(port_ranges: &[(u16, u16)], report: &ToolReport) -> (result: Result<
    Vec<ProcessInfo>,
    ScanError,
>)
    ensures
        match lsof_scan(port_ranges@, *report) {
            Ok(snapshot) => result matches Ok(records) && listeners(records@) == snapshot
                && ascending_keys(snapshot),
            Err(message) => result matches Err(error) && error.message@ == message,
        },
{
    match report {
        ToolReport::NotStarted { reason } => Err(
            ScanError { message: String::from_str("failed to execute lsof sweep") },
        ),
        ToolReport::Exited { success, stdout, stderr } => {
            if *success {
                Ok(listeners_from_lsof(stdout.as_str(), port_ranges))
            } else {
                let mut message = String::from_str("lsof sweep failed: ");
                message.append(stderr.as_str());
                Err(ScanError { message })
            }
        },
    }
}

/// Whether some line of `lines` begins with `n`.
pub open spec fn names_a_socket(lines: Seq<Seq<char>>) -> bool {
    exists|i: int| 0 <= i < lines.len() && (#[trigger] lines[i]).len() > 0 && lines[i][0] == 'n'
}

/// Whether a report of `lsof`, asked for the listening sockets of one
/// process, shows that the process still listens.
pub open spec fn still_listening(report: ToolReport) -> bool {
    match report {
        ToolReport::NotStarted { reason } => false,
        ToolReport::Exited { success, stdout, stderr } => success && names_a_socket(
            split(stdout@, '\n'),
        ),
    }
}

fn names_socket(listing: &str) -> (found: bool)
    ensures
        found == names_a_socket(split(listing@, '\n')),
{
    let chars = to_chars(listing);
    let lines = split_chars(&chars, '\n');
    let ghost all = pieces(lines@);
    let mut i: usize = 0;
    while i < lines.len()
        invariant
            i <= lines.len(),
            all == pieces(lines@),
            all == split(listing@, '\n'),
            forall|k: int| 0 <= k < i ==> !((#[trigger] all[k]).len() > 0 && all[k][0] == 'n'),
        decreases lines.len() - i,
    {
        assert(all[i as int] == lines@[i as int]@);
        if lines[i].len() > 0 && lines[i][0] == 'n' {
            return true;
        }
        i = i + 1;
    }
    false
}

/// Whether the process is still a listener, going by the report of an
/// `lsof` run that was restricted to that process: it is when the run
/// succeeded and named at least one socket.
///
/// This check narrows the window in which a recycled pid could be signalled;
/// it cannot close it.
pub fn verify_pid_is_listener(report: &ToolReport) -> (listening: bool)
    ensures
        listening == still_listening(*report),
{
    match report {
        ToolReport::NotStarted { reason } => false,
        ToolReport::Exited { success, stdout, stderr } => *success && names_socket(
            stdout.as_str(),
        ),
    }
}

/// The listener that line `i` of a listing describes, given the lines
/// before it.
pub open spec fn candidate_at(lines: Seq<Seq<char>>, i: int) -> Option<Listener> {
    line_candidate(cursor_after(lines.take(i)), lines[i])
}

/// No listener within the ranges is dropped: a socket line under a process
/// whose pid is known, on a port within the ranges, has a record with its
/// port and pid among those kept.
pub proof fn lemma_kept_holds_every_candidate(
    lines: Seq<Seq<char>>,
    ranges: Seq<(u16, u16)>,
    i: int,
)
    requires
        0 <= i < lines.len(),
        candidate_at(lines, i).is_some(),
        in_ranges(candidate_at(lines, i).unwrap().port, ranges),
    ensures
        has_key(
            kept(lines, ranges),
            candidate_at(lines, i).unwrap().port,
            candidate_at(lines, i).unwrap().pid,
        ),
    decreases lines.len(),
{
    let found = candidate_at(lines, i).unwrap();
    let shorter = lines.drop_last();
    let before = kept(shorter, ranges);
    let after = kept(lines, ranges);
    if i == lines.len() - 1 {
        assert(lines.take(i) =~= shorter);
        if !has_key(before, found.port, found.pid) {
            assert(after == before.push(found));
            assert(after[before.len() as int] == found);
        }
    } else {
        assert(shorter.take(i) =~= lines.take(i));
        assert(shorter[i] == lines[i]);
        lemma_kept_holds_every_candidate(shorter, ranges, i);
        let k = choose|k: int|
            0 <= k < before.len() && (#[trigger] before[k]).port == found.port && before[k].pid
                == found.pid;
        assert(after[k] == before[k]);
    }
}

/// The snapshot of a listing holds every listener within the ranges that
/// the listing describes.
pub proof fn lemma_scan_is_complete(listing: Seq<char>, ranges: Seq<(u16, u16)>, i: int)
    requires
        0 <= i < split(listing, '\n').len(),
        candidate_at(split(listing, '\n'), i).is_some(),
        in_ranges(candidate_at(split(listing, '\n'), i).unwrap().port, ranges),
    ensures
        has_key(
            lsof_listeners(listing, ranges),
            candidate_at(split(listing, '\n'), i).unwrap().port,
            candidate_at(split(listing, '\n'), i).unwrap().pid,
        ),
{
    let lines = split(listing, '\n');
    let found = candidate_at(lines, i).unwrap();
    lemma_kept_holds_every_candidate(lines, ranges, i);
    lemma_record_order_is_total();
    kept(lines, ranges).lemma_sort_by_ensures(record_order());
    lemma_has_key_by_content(
        kept(lines, ranges),
        lsof_listeners(listing, ranges),
        found.port,
        found.pid,
    );
}

/// A socket of a process whose command the listing does not give, or gives
/// as nothing, is recorded under the stand-in name of that process.
pub proof fn lemma_unknown_command_gets_stand_in(cursor: LsofCursor, line: Seq<char>)
    requires
        cursor.pid.is_some(),
        cursor.command.is_none() || cursor.command.unwrap().len() == 0,
        line_candidate(cursor, line).is_some(),
    ensures
        line_candidate(cursor, line).unwrap().command == stand_in_name(cursor.pid.unwrap()),
        is_stand_in(line_candidate(cursor, line).unwrap().command),
{
    lemma_stand_in_is_recognised(cursor.pid.unwrap());
}

} // verus!
