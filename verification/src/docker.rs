//! Containers that publish ports: the table that `docker ps` prints, and
//! the feedback for stopping a container.

use crate::model::{DockerContainerInfo, Feedback, FeedbackSeverity, KillFeedback, ToolReport};
use crate::text::{
    from_chars, lemma_tail_after_last, parse_u16_range, parse_unsigned, pieces, split, split_chars,
    tail_after_last, to_chars, trim, trimmed_chars,
};
use std::collections::HashMap;
use vstd::prelude::*;

verus! {

/// The position of the first `->` in `s`, or the length of `s` when there
/// is none.
pub open spec fn arrow_at(s: Seq<char>) -> nat
    decreases s.len(),
{
    if s.len() < 2 {
        s.len()
    } else if s[0] == '-' && s[1] == '>' {
        0
    } else {
        1 + arrow_at(s.drop_first())
    }
}

/// The host port that one entry of a container's port list publishes, such
/// as `0.0.0.0:5432->5432/tcp`: the number between the last `:` before the
/// arrow and the arrow. An entry without an arrow, without a `:` before it,
/// or with a range of ports publishes none.
pub open spec fn published_port(entry: Seq<char>) -> Option<u16> {
    let arrow = arrow_at(entry) as int;
    if arrow + 2 > entry.len() {
        None
    } else {
        let left = entry.take(arrow);
        let host = tail_after_last(left, ':');
        if !left.contains(':') || host.contains('-') {
            None
        } else {
            match parse_unsigned(host, 0xffff) {
                Some(port) => Some(port as u16),
                None => None,
            }
        }
    }
}

proof fn lemma_arrow_at(s: Seq<char>, n: int)
    requires
        0 <= n <= s.len(),
        forall|k: int| 0 <= k < n && k + 1 < s.len() ==> !(s[k] == '-' && #[trigger] s[k + 1] == '>'),
        n + 1 >= s.len() || (s[n] == '-' && s[n + 1] == '>'),
    ensures
        arrow_at(s) == (if n + 1 >= s.len() {
            s.len() as int
        } else {
            n
        }),
    decreases n,
{
    if n > 0 && s.len() >= 2 {
        let rest = s.drop_first();
        assert(!(s[0] == '-' && s[0int + 1] == '>'));
        assert forall|k: int| 0 <= k < n - 1 && k + 1 < rest.len() implies !(rest[k] == '-'
            && #[trigger] rest[k + 1] == '>') by {
            assert(rest[k] == s[k + 1]);
            assert(rest[k + 1] == s[(k + 1) + 1]);
        }
        lemma_arrow_at(rest, n - 1);
    }
}

/// The host port that one trimmed entry of a port list publishes.
pub fn parse_published_port(entry: &Vec<char>) -> (port: Option<u16>)
    ensures
        port == published_port(entry@),
{
    let mut arrow: usize = 0;
    while entry.len() - arrow >= 2 && !(entry[arrow] == '-' && entry[arrow + 1] == '>')
        invariant
            arrow <= entry.len(),
            forall|k: int|
                0 <= k < arrow && k + 1 < entry.len() ==> !(entry@[k] == '-'
                    && #[trigger] entry@[k + 1] == '>'),
        decreases entry.len() - arrow,
    {
        arrow = arrow + 1;
    }
    proof {
        lemma_arrow_at(entry@, arrow as int);
    }
    if entry.len() - arrow < 2 {
        return None;
    }
    let mut from: usize = arrow;
    while from > 0 && entry[from - 1] != ':'
        invariant
            from <= arrow < entry.len(),
            forall|k: int| from <= k < arrow ==> entry@[k] != ':',
        decreases from,
    {
        from = from - 1;
    }
    let ghost left = entry@.take(arrow as int);
    proof {
        assert forall|k: int| from <= k < left.len() implies left[k] != ':' by {
            assert(left[k] == entry@[k]);
        }
        if from > 0 {
            assert(left[from - 1] == entry@[from - 1]);
        }
        lemma_tail_after_last(left, ':', from as int);
        assert(left.skip(from as int) =~= entry@.subrange(from as int, arrow as int));
    }
    if from == 0 {
        return None;
    }
    let mut k: usize = from;
    while k < arrow
        invariant
            0 < from <= k <= arrow < entry.len(),
            arrow_at(entry@) == arrow,
            arrow + 2 <= entry.len(),
            left == entry@.take(arrow as int),
            left.contains(':'),
            tail_after_last(left, ':') == entry@.subrange(from as int, arrow as int),
            forall|j: int| from <= j < k ==> entry@[j] != '-',
        decreases arrow - k,
    {
        if entry[k] == '-' {
            assert(entry@.subrange(from as int, arrow as int)[k - from] == '-');
            return None;
        }
        k = k + 1;
    }
    proof {
        let host = entry@.subrange(from as int, arrow as int);
        if host.contains('-') {
            let j = choose|j: int| 0 <= j < host.len() && host[j] == '-';
            assert(entry@[from + j] == '-');
        }
    }
    parse_u16_range(entry, from, arrow)
}

/// The containers by published port, as name and id, after the entries of
/// one container's port list are taken in. A port published twice belongs
/// to the container that comes last.
pub open spec fn with_entries(
    before: Map<u16, (Seq<char>, Seq<char>)>,
    entries: Seq<Seq<char>>,
    name: Seq<char>,
    id: Seq<char>,
) -> Map<u16, (Seq<char>, Seq<char>)>
    decreases entries.len(),
{
    if entries.len() == 0 {
        before
    } else {
        let sofar = with_entries(before, entries.drop_last(), name, id);
        match published_port(trim(entries.last())) {
            Some(port) => sofar.insert(port, (name, id)),
            None => sofar,
        }
    }
}

/// The containers by published port after one more line of the listing. A
/// line holds an id, a name and a port list, separated by tabs; a line with
/// fewer fields is passed over.
pub open spec fn with_line(before: Map<u16, (Seq<char>, Seq<char>)>, line: Seq<char>) -> Map<
    u16,
    (Seq<char>, Seq<char>),
> {
    let fields = split(line, '\t');
    if fields.len() < 3 {
        before
    } else {
        with_entries(before, split(fields[2], ','), fields[1], fields[0])
    }
}

/// The containers by published port that the lines of a listing describe.
pub open spec fn listed_ports(lines: Seq<Seq<char>>) -> Map<u16, (Seq<char>, Seq<char>)>
    decreases lines.len(),
{
    if lines.len() == 0 {
        Map::<u16, (Seq<char>, Seq<char>)>::empty()
    } else {
        with_line(listed_ports(lines.drop_last()), lines.last())
    }
}

/// The containers by published port that a report of `docker ps` describes;
/// none when the tool did not run or failed.
pub open spec fn docker_ports(report: ToolReport) -> Map<u16, (Seq<char>, Seq<char>)> {
    match report {
        ToolReport::NotStarted { reason } => Map::<u16, (Seq<char>, Seq<char>)>::empty(),
        ToolReport::Exited { success, stdout, stderr } => if success {
            listed_ports(split(stdout@, '\n'))
        } else {
            Map::<u16, (Seq<char>, Seq<char>)>::empty()
        },
    }
}

/// The names and ids of the containers of a map, by port.
pub open spec fn containers(map: Map<u16, DockerContainerInfo>) -> Map<
    u16,
    (Seq<char>, Seq<char>),
> {
    map.map_values(|c: DockerContainerInfo| (c.name@, c.id@))
}

fn take_line(map: &mut HashMap<u16, DockerContainerInfo>, line: &Vec<char>)
    ensures
        containers(final(map)@) == with_line(containers(old(map)@), line@),
{
    broadcast use vstd::std_specs::hash::group_hash_axioms;

    let fields = split_chars(line, '\t');
    if fields.len() < 3 {
        return ;
    }
    proof {
        assert(pieces(fields@)[0] == fields@[0]@);
        assert(pieces(fields@)[1] == fields@[1]@);
        assert(pieces(fields@)[2] == fields@[2]@);
    }
    let entries = split_chars(&fields[2], ',');
    let ghost all = pieces(entries@);
    let ghost name = fields@[1]@;
    let ghost id = fields@[0]@;
    let ghost before = containers(map@);
    let mut i: usize = 0;
    assert(all.take(0) =~= Seq::<Seq<char>>::empty());
    while i < entries.len()
        invariant
            i <= entries.len(),
            fields.len() >= 3,
            all == pieces(entries@),
            name == fields@[1]@,
            id == fields@[0]@,
            containers(map@) == with_entries(before, all.take(i as int), name, id),
        decreases entries.len() - i,
    {
        proof {
            assert(all.take(i + 1).drop_last() =~= all.take(i as int));
            assert(all.take(i + 1).last() == entries@[i as int]@);
        }
        let entry = trimmed_chars(&entries[i], 0, entries[i].len());
        assert(entries@[i as int]@.subrange(0, entries@[i as int]@.len() as int)
            =~= entries@[i as int]@);
        match parse_published_port(&entry) {
            Some(port) => {
                let ghost old_map = map@;
                let info = DockerContainerInfo {
                    name: from_chars(&fields[1]),
                    id: from_chars(&fields[0]),
                };
                map.insert(port, info);
                assert(containers(map@) =~= containers(old_map).insert(port, (name, id)));
            },
            None => {},
        }
        i = i + 1;
    }
    assert(all.take(entries.len() as int) =~= all);
}

fn ports_from_listing(listing: &str) -> (map: HashMap<u16, DockerContainerInfo>)
    ensures
        containers(map@) == listed_ports(split(listing@, '\n')),
{
    let chars = to_chars(listing);
    let lines = split_chars(&chars, '\n');
    let ghost all = pieces(lines@);
    let mut map: HashMap<u16, DockerContainerInfo> = HashMap::new();
    let mut i: usize = 0;
    proof {
        assert(all.take(0) =~= Seq::<Seq<char>>::empty());
        assert(containers(map@) =~= Map::<u16, (Seq<char>, Seq<char>)>::empty());
    }
    while i < lines.len()
        invariant
            i <= lines.len(),
            all == pieces(lines@),
            containers(map@) == listed_ports(all.take(i as int)),
        decreases lines.len() - i,
    {
        proof {
            assert(all.take(i + 1).drop_last() =~= all.take(i as int));
            assert(all.take(i + 1).last() == lines@[i as int]@);
        }
        take_line(&mut map, &lines[i]);
        i = i + 1;
    }
    assert(all.take(lines.len() as int) =~= all);
    map
}

/// Reads the report of `docker ps` (id, names and ports, separated by tabs)
/// into a map from published host port to container. A tool that is missing
/// or fails yields an empty map.
pub fn query_docker_port_map(report: &ToolReport) -> (map: HashMap<u16, DockerContainerInfo>)
    ensures
        containers(map@) == docker_ports(*report),
{
    match report {
        ToolReport::NotStarted { reason } => {
            let map: HashMap<u16, DockerContainerInfo> = HashMap::new();
            assert(containers(map@) =~= Map::<u16, (Seq<char>, Seq<char>)>::empty());
            map
        },
        ToolReport::Exited { success, stdout, stderr } => {
            if *success {
                ports_from_listing(stdout.as_str())
            } else {
                let map: HashMap<u16, DockerContainerInfo> = HashMap::new();
                assert(containers(map@) =~= Map::<u16, (Seq<char>, Seq<char>)>::empty());
                map
            }
        },
    }
}

/// The feedback for stopping a container, by the report of the tool.
pub open spec fn docker_stop_feedback(container: Seq<char>, report: ToolReport) -> Feedback {
    match report {
        ToolReport::NotStarted { reason } => Feedback {
            message: "docker stop error: "@ + reason@,
            severity: FeedbackSeverity::Error,
        },
        ToolReport::Exited { success, stdout, stderr } => if success {
            Feedback {
                message: "Stopped container "@ + container + "."@,
                severity: FeedbackSeverity::Info,
            }
        } else {
            Feedback {
                message: "Failed to stop container "@ + container + ": "@ + stderr@,
                severity: FeedbackSeverity::Error,
            }
        },
    }
}

/// The feedback for a request to stop `container`, given the report of
/// `docker stop`.
pub fn run_docker_stop(container: &str, report: &ToolReport) -> (feedback: KillFeedback)
    ensures
        feedback@ == docker_stop_feedback(container@, *report),
{
    match report {
        ToolReport::NotStarted { reason } => {
            let mut message = String::from_str("docker stop error: ");
            message.append(reason.as_str());
            KillFeedback::error(message)
        },
        ToolReport::Exited { success, stdout, stderr } => {
            if *success {
                let mut message = String::from_str("Stopped container ");
                message.append(container);
                message.append(".");
                KillFeedback::info(message)
            } else {
                let mut message = String::from_str("Failed to stop container ");
                message.append(container);
                message.append(": ");
                message.append(stderr.as_str());
                KillFeedback::error(message)
            }
        },
    }
}

} // verus!
