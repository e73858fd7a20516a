//! Snapshots: lists of listener records in one fixed order, so that two
//! scans can be compared value by value.

use crate::model::{listeners, Listener, ProcessInfo};
use crate::text::{decimal, push_signed, to_chars};
use vstd::prelude::*;
use vstd::relations::{sorted_by, total_ordering};
use vstd::seq_lib::{lemma_sorted_unique, to_multiset_insert};

verus! {

/// Dictionary order on texts, character by character.
pub open spec fn text_leq(a: Seq<char>, b: Seq<char>) -> bool
    decreases a.len(),
{
    if a.len() == 0 {
        true
    } else if b.len() == 0 {
        false
    } else if a[0] != b[0] {
        a[0] < b[0]
    } else {
        text_leq(a.drop_first(), b.drop_first())
    }
}

/// The order of records: by port, then by pid, then by command.
pub open spec fn record_leq(a: Listener, b: Listener) -> bool {
    a.port < b.port || (a.port == b.port && (a.pid < b.pid || (a.pid == b.pid && text_leq(
        a.command,
        b.command,
    ))))
}

/// [`record_leq`] as a relation.
pub open spec fn record_order() -> spec_fn(Listener, Listener) -> bool {
    |a: Listener, b: Listener| record_leq(a, b)
}

/// The records of `records` in ascending order.
pub open spec fn sorted_listeners(records: Seq<Listener>) -> Seq<Listener> {
    records.sort_by(record_order())
}

/// Every text comes no later than itself.
pub proof fn lemma_text_leq_same(a: Seq<char>)
    ensures
        text_leq(a, a),
{
    lemma_text_leq_reflexive(a);
}

proof fn lemma_text_leq_reflexive(a: Seq<char>)
    ensures
        text_leq(a, a),
    decreases a.len(),
{
    if a.len() > 0 {
        lemma_text_leq_reflexive(a.drop_first());
    }
}

proof fn lemma_text_leq_antisymmetric(a: Seq<char>, b: Seq<char>)
    requires
        text_leq(a, b),
        text_leq(b, a),
    ensures
        a == b,
    decreases a.len(),
{
    if a.len() > 0 && b.len() > 0 {
        lemma_text_leq_antisymmetric(a.drop_first(), b.drop_first());
        assert(a =~= seq![a[0]] + a.drop_first());
        assert(b =~= seq![b[0]] + b.drop_first());
    } else {
        assert(a =~= b);
    }
}

proof fn lemma_text_leq_transitive(a: Seq<char>, b: Seq<char>, c: Seq<char>)
    requires
        text_leq(a, b),
        text_leq(b, c),
    ensures
        text_leq(a, c),
    decreases a.len(),
{
    if a.len() > 0 && b.len() > 0 && c.len() > 0 {
        if a[0] == b[0] && b[0] == c[0] {
            lemma_text_leq_transitive(a.drop_first(), b.drop_first(), c.drop_first());
        }
    }
}

proof fn lemma_text_leq_total(a: Seq<char>, b: Seq<char>)
    ensures
        text_leq(a, b) || text_leq(b, a),
    decreases a.len(),
{
    if a.len() > 0 && b.len() > 0 && a[0] == b[0] {
        lemma_text_leq_total(a.drop_first(), b.drop_first());
    }
}

/// The order of records is a total order.
pub proof fn lemma_record_order_is_total()
    ensures
        total_ordering(record_order()),
{
    let r = record_order();
    assert forall|x: Listener| #[trigger] r(x, x) by {
        lemma_text_leq_reflexive(x.command);
    }
    assert forall|x: Listener, y: Listener| #[trigger] r(x, y) && #[trigger] r(y, x) implies x
        == y by {
        lemma_text_leq_antisymmetric(x.command, y.command);
    }
    assert forall|x: Listener, y: Listener, z: Listener| #[trigger]
        r(x, y) && #[trigger] r(y, z) implies r(x, z) by {
        if x.port == y.port && y.port == z.port && x.pid == y.pid && y.pid == z.pid {
            lemma_text_leq_transitive(x.command, y.command, z.command);
        }
    }
    assert forall|x: Listener, y: Listener| #[trigger] r(x, y) || #[trigger] r(y, x) by {
        lemma_text_leq_total(x.command, y.command);
    }
}

/// Whether `a` comes no later than `b` in dictionary order.
pub fn text_le(a: &Vec<char>, b: &Vec<char>) -> (le: bool)
    ensures
        le == text_leq(a@, b@),
{
    let mut i: usize = 0;
    assert(a@.skip(0) =~= a@ && b@.skip(0) =~= b@);
    while i < a.len() && i < b.len() && a[i] == b[i]
        invariant
            i <= a.len(),
            i <= b.len(),
            text_leq(a@, b@) == text_leq(a@.skip(i as int), b@.skip(i as int)),
        decreases a.len() - i,
    {
        proof {
            assert(a@.skip(i as int)[0] == a@[i as int]);
            assert(b@.skip(i as int)[0] == b@[i as int]);
            assert(a@.skip(i as int).drop_first() =~= a@.skip(i + 1));
            assert(b@.skip(i as int).drop_first() =~= b@.skip(i + 1));
        }
        i = i + 1;
    }
    proof {
        if i < a.len() {
            assert(a@.skip(i as int)[0] == a@[i as int]);
        }
        if i < b.len() {
            assert(b@.skip(i as int)[0] == b@[i as int]);
        }
    }
    if i == a.len() {
        true
    } else if i == b.len() {
        false
    } else {
        a[i] < b[i]
    }
}

/// Whether `a` comes no later than `b` in the order of records.
pub fn record_le(a: &ProcessInfo, b: &ProcessInfo) -> (le: bool)
    ensures
        le == record_leq(a@, b@),
{
    if a.port != b.port {
        a.port < b.port
    } else if a.pid != b.pid {
        a.pid < b.pid
    } else {
        let left = to_chars(a.command.as_str());
        let right = to_chars(b.command.as_str());
        text_le(&left, &right)
    }
}

/// Sorts records by port, then pid, then command.
///
/// The result holds exactly the records of the input, in the one ascending
/// order there is.
pub fn sort_records(records: &Vec<ProcessInfo>) -> (sorted: Vec<ProcessInfo>)
    ensures
        listeners(sorted@) == sorted_listeners(listeners(records@)),
{
    let ghost order = record_order();
    let mut sorted: Vec<ProcessInfo> = Vec::new();
    let mut i: usize = 0;
    proof {
        lemma_record_order_is_total();
        assert(listeners(records@).take(0) =~= Seq::<Listener>::empty());
        assert(listeners(sorted@) =~= Seq::<Listener>::empty());
    }
    while i < records.len()
        invariant
            i <= records.len(),
            order == record_order(),
            total_ordering(order),
            sorted_by(listeners(sorted@), order),
            listeners(sorted@).to_multiset() == listeners(records@).take(i as int).to_multiset(),
        decreases records.len() - i,
    {
        let item = records[i].duplicate();
        let mut at: usize = 0;
        while at < sorted.len() && record_le(&sorted[at], &item)
            invariant
                at <= sorted.len(),
                forall|k: int| 0 <= k < at ==> record_leq(#[trigger] sorted@[k]@, item@),
            decreases sorted.len() - at,
        {
            at = at + 1;
        }
        let ghost before = listeners(sorted@);
        sorted.insert(at, item);
        proof {
            let after = listeners(sorted@);
            let x = records@[i as int]@;
            assert(after =~= before.insert(at as int, x));
            to_multiset_insert(before, at as int, x);
            assert(listeners(records@).take(i + 1) =~= listeners(records@).take(i as int).push(x));
            assert(listeners(records@).take(i + 1).to_multiset() =~= listeners(records@).take(
                i as int,
            ).to_multiset().insert(x)) by {
                vstd::seq_lib::to_multiset_build(listeners(records@).take(i as int), x);
            }
            assert forall|p: int, q: int| 0 <= p < q < after.len() implies #[trigger] order(
                after[p],
                after[q],
            ) by {
                if q < at {
                    assert(after[p] == before[p] && after[q] == before[q]);
                } else if q == at {
                    assert(after[p] == before[p]);
                    assert(order(before[p], x));
                } else if p == at {
                    // `x` comes before the first record that is not below it.
                    assert(after[q] == before[q - 1]);
                    assert(!record_leq(before[at as int], x));
                    assert(order(x, before[at as int]) || order(before[at as int], x));
                    if q - 1 > at {
                        assert(order(before[at as int], before[q - 1]));
                    }
                } else if p < at {
                    assert(after[p] == before[p] && after[q] == before[q - 1]);
                } else {
                    assert(after[p] == before[p - 1] && after[q] == before[q - 1]);
                }
            }
        }
        i = i + 1;
    }
    proof {
        let all = listeners(records@);
        assert(all.take(records.len() as int) =~= all);
        all.lemma_sort_by_ensures(order);
        lemma_sorted_unique(listeners(sorted@), all.sort_by(order), order);
    }
    sorted
}

/// Whether two lists hold the same records in the same order.
pub fn same_records(a: &Vec<ProcessInfo>, b: &Vec<ProcessInfo>) -> (same: bool)
    ensures
        same == (listeners(a@) == listeners(b@)),
{
    if a.len() != b.len() {
        assert(listeners(a@).len() != listeners(b@).len());
        return false;
    }
    let mut i: usize = 0;
    while i < a.len()
        invariant
            i <= a.len(),
            a.len() == b.len(),
            forall|k: int| 0 <= k < i ==> a@[k]@ == b@[k]@,
        decreases a.len() - i,
    {
        let x = &a[i];
        let y = &b[i];
        if !(x.port == y.port && x.pid == y.pid && x.command == y.command) {
            assert(listeners(a@)[i as int] != listeners(b@)[i as int]);
            return false;
        }
        i = i + 1;
    }
    assert(listeners(a@) =~= listeners(b@));
    true
}

/// Whether the key `(port, pid)` of `a` is below that of `b`.
pub open spec fn key_lt(a: Listener, b: Listener) -> bool {
    a.port < b.port || (a.port == b.port && a.pid < b.pid)
}

/// Whether the records are in strictly ascending order of `(port, pid)`.
/// Such a list holds no key twice.
pub open spec fn ascending_keys(records: Seq<Listener>) -> bool {
    forall|i: int, j: int| 0 <= i < j < records.len() ==> key_lt(#[trigger] records[i], #[trigger] records[j])
}

/// Whether some record has the key `(port, pid)`.
pub open spec fn has_key(records: Seq<Listener>, port: int, pid: int) -> bool {
    exists|i: int| 0 <= i < records.len() && (#[trigger] records[i]).port == port && records[i].pid == pid
}

/// Two lists with the same records hold the same keys.
pub proof fn lemma_has_key_by_content(a: Seq<Listener>, b: Seq<Listener>, port: int, pid: int)
    requires
        a.to_multiset() == b.to_multiset(),
    ensures
        has_key(a, port, pid) == has_key(b, port, pid),
{
    broadcast use vstd::seq_lib::group_to_multiset_ensures;

    if has_key(a, port, pid) {
        let i = choose|i: int| 0 <= i < a.len() && (#[trigger] a[i]).port == port && a[i].pid == pid;
        assert(a.contains(a[i]));
        assert(b.to_multiset().count(a[i]) > 0);
        assert(b.contains(a[i]));
    }
    if has_key(b, port, pid) {
        let i = choose|i: int| 0 <= i < b.len() && (#[trigger] b[i]).port == port && b[i].pid == pid;
        assert(b.contains(b[i]));
        assert(a.to_multiset().count(b[i]) > 0);
        assert(a.contains(b[i]));
    }
}

/// Records in ascending order of their keys are in ascending order.
pub proof fn lemma_ascending_keys_sorted(records: Seq<Listener>)
    requires
        ascending_keys(records),
    ensures
        sorted_by(records, record_order()),
{
}

/// Puts `item` at its place in a list ordered by key, unless the list
/// already holds a record with the same `(port, pid)`.
pub(crate) fn insert_by_key(records: &mut Vec<ProcessInfo>, item: ProcessInfo) -> (added: bool)
    requires
        ascending_keys(listeners(old(records)@)),
    ensures
        ascending_keys(listeners(final(records)@)),
        added == !has_key(listeners(old(records)@), item.port as int, item.pid as int),
        added ==> listeners(final(records)@).to_multiset() == listeners(
            old(records)@,
        ).to_multiset().insert(item@),
        !added ==> listeners(final(records)@) == listeners(old(records)@),
{
    let ghost before = listeners(records@);
    let mut at: usize = 0;
    while at < records.len() && (records[at].port < item.port || (records[at].port == item.port
        && records[at].pid < item.pid))
        invariant
            at <= records.len(),
            records@ == old(records)@,
            before == listeners(records@),
            forall|k: int| 0 <= k < at ==> key_lt(#[trigger] before[k], item@),
        decreases records.len() - at,
    {
        assert(before[at as int] == records@[at as int]@);
        at = at + 1;
    }
    if at < records.len() && records[at].port == item.port && records[at].pid == item.pid {
        assert(before[at as int] == records@[at as int]@);
        return false;
    }
    proof {
        if at < records.len() {
            assert(before[at as int] == records@[at as int]@);
            assert(key_lt(item@, before[at as int]));
        }
        assert forall|i: int| 0 <= i < before.len() implies !((#[trigger] before[i]).port
            == item.port && before[i].pid == item.pid) by {
            if i > at {
                assert(key_lt(before[at as int], before[i]));
            }
        }
    }
    let ghost x = item@;
    records.insert(at, item);
    proof {
        let after = listeners(records@);
        assert(after =~= before.insert(at as int, x));
        to_multiset_insert(before, at as int, x);
        assert forall|p: int, q: int| 0 <= p < q < after.len() implies key_lt(
            #[trigger] after[p],
            #[trigger] after[q],
        ) by {
            if q < at {
                assert(after[p] == before[p] && after[q] == before[q]);
            } else if q == at {
                assert(after[p] == before[p]);
            } else if p == at {
                assert(after[q] == before[q - 1]);
                if q - 1 > at {
                    assert(key_lt(before[at as int], before[q - 1]));
                }
            } else if p < at {
                assert(after[p] == before[p] && after[q] == before[q - 1]);
            } else {
                assert(after[p] == before[p - 1] && after[q] == before[q - 1]);
            }
        }
    }
    true
}


/// Whether `port` lies in one of the inclusive ranges.
pub open spec fn in_ranges(port: int, ranges: Seq<(u16, u16)>) -> bool {
    exists|i: int| 0 <= i < ranges.len() && (#[trigger] ranges[i]).0 <= port <= ranges[i].1
}

/// Whether `port` lies in one of the inclusive `(low, high)` ranges.
pub fn port_in_ranges(port: u16, ranges: &[(u16, u16)]) -> (hit: bool)
    ensures
        hit == in_ranges(port as int, ranges@),
{
    let mut i: usize = 0;
    while i < ranges.len()
        invariant
            i <= ranges.len(),
            forall|k: int| 0 <= k < i ==> !((#[trigger] ranges@[k]).0 <= port <= ranges@[k].1),
        decreases ranges.len() - i,
    {
        let range = ranges[i];
        if range.0 <= port && port <= range.1 {
            return true;
        }
        i = i + 1;
    }
    false
}


/// The name that stands for a process whose command is not known:
/// `pid N`.
pub open spec fn stand_in_name(pid: int) -> Seq<char> {
    "pid "@ + decimal(pid)
}

/// Whether a command is a stand-in of the form `pid N`.
pub open spec fn is_stand_in(command: Seq<char>) -> bool {
    "pid "@.is_prefix_of(command)
}

/// Every stand-in name is recognised as one.
pub proof fn lemma_stand_in_is_recognised(pid: int)
    ensures
        is_stand_in(stand_in_name(pid)),
{
    let prefix = "pid "@;
    assert(stand_in_name(pid).subrange(0, prefix.len() as int) =~= prefix);
}

/// The name that stands for the process `pid` while its command is not
/// known.
pub fn stand_in(pid: i32) -> (name: String)
    ensures
        name@ == stand_in_name(pid as int),
        is_stand_in(name@),
{
    let mut name = String::from_str("pid ");
    push_signed(&mut name, pid as i64);
    proof {
        lemma_stand_in_is_recognised(pid as int);
    }
    name
}

} // verus!
