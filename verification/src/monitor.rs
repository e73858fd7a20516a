//! Change detection under adaptive polling.
//!
//! The monitor keeps the previous snapshot and the time of the last change.
//! Each cycle it is handed the result of one scan and a clock reading, and it
//! answers with a verdict and the delay before the next scan: none after a
//! change, the active interval while changes are recent, and a longer idle
//! interval once nothing has changed for a while.

use crate::model::{listeners, Listener, ProcessInfo};
use crate::snapshot::{
    lemma_record_order_is_total, record_order, same_records, sort_records, sorted_listeners,
};
use vstd::prelude::*;
use vstd::seq_lib::lemma_sorted_unique;

verus! {

/// How long without a change before polling slows down, in milliseconds.
pub const IDLE_THRESHOLD_MS: u64 = 30000;

/// The idle interval is the active interval times this factor.
pub const IDLE_MULTIPLIER: u64 = 2;

/// What the monitor remembers between two cycles.
#[derive(Debug)]
pub struct PollState {
    /// The snapshot of the last change.
    pub previous: Vec<ProcessInfo>,
    /// Clock reading of the last change, in milliseconds.
    pub last_change_ms: u64,
    /// Delay before the next scan, in seconds.
    pub interval_secs: u64,
}

/// What one cycle found.
#[derive(Debug)]
pub enum PollVerdict {
    /// The listeners changed; this is the new snapshot.
    Changed(Vec<ProcessInfo>),
    /// The listeners are as they were.
    Unchanged,
    /// The scan failed, with this message.
    ScanFailed(String),
}

/// Whether a scan differs from the previous snapshot. The scan is put in
/// order before it is compared, so the order in which it lists its records
/// plays no part.
pub open spec fn changed(previous: Seq<Listener>, scanned: Seq<Listener>) -> bool {
    sorted_listeners(scanned) != previous
}

/// Time since the last change; a clock reading before the last change counts
/// as no time at all.
pub open spec fn elapsed_ms(last_change_ms: u64, now_ms: u64) -> int {
    if now_ms >= last_change_ms {
        now_ms - last_change_ms
    } else {
        0
    }
}

/// The idle interval for an active interval, capped at the largest number of
/// seconds that can be represented.
pub open spec fn idle_interval_secs(active_secs: u64) -> u64 {
    if active_secs * IDLE_MULTIPLIER > u64::MAX {
        u64::MAX
    } else {
        (active_secs * IDLE_MULTIPLIER) as u64
    }
}

/// The delay after a scan that found no change.
pub open spec fn unchanged_interval_secs(last_change_ms: u64, now_ms: u64, active_secs: u64) -> u64 {
    if elapsed_ms(last_change_ms, now_ms) > IDLE_THRESHOLD_MS {
        idle_interval_secs(active_secs)
    } else {
        active_secs
    }
}

/// A verdict does not depend on the order in which a scan lists its
/// records: two scans that hold the same records, each as often as the
/// other, are both changed or both unchanged against any previous snapshot.
pub proof fn lemma_verdict_ignores_order(
    previous: Seq<Listener>,
    scan: Seq<Listener>,
    shuffled: Seq<Listener>,
)
    requires
        scan.to_multiset() == shuffled.to_multiset(),
    ensures
        sorted_listeners(scan) == sorted_listeners(shuffled),
        changed(previous, scan) == changed(previous, shuffled),
{
    lemma_record_order_is_total();
    scan.lemma_sort_by_ensures(record_order());
    shuffled.lemma_sort_by_ensures(record_order());
    lemma_sorted_unique(sorted_listeners(scan), sorted_listeners(shuffled), record_order());
}

/// A copy of a list of records.
pub fn duplicate_records(records: &Vec<ProcessInfo>) -> (copy: Vec<ProcessInfo>)
    ensures
        listeners(copy@) == listeners(records@),
{
    let mut copy: Vec<ProcessInfo> = Vec::new();
    let mut i: usize = 0;
    while i < records.len()
        invariant
            i <= records.len(),
            copy.len() == i,
            forall|k: int| 0 <= k < i ==> copy@[k]@ == records@[k]@,
        decreases records.len() - i,
    {
        copy.push(records[i].duplicate());
        i = i + 1;
    }
    assert(listeners(copy@) =~= listeners(records@));
    copy
}

/// The idle interval that goes with an active interval.
pub fn idle_interval(active_secs: u64) -> (idle: u64)
    ensures
        idle == idle_interval_secs(active_secs),
{
    if active_secs > u64::MAX / IDLE_MULTIPLIER {
        u64::MAX
    } else {
        active_secs * IDLE_MULTIPLIER
    }
}

/// The delay after a scan that found no change: the idle interval once more
/// than [`IDLE_THRESHOLD_MS`] have passed since the last change, the active
/// interval before that.
pub fn unchanged_interval(last_change_ms: u64, now_ms: u64, active_secs: u64) -> (secs: u64)
    ensures
        secs == unchanged_interval_secs(last_change_ms, now_ms, active_secs),
{
    let elapsed: u64 = if now_ms >= last_change_ms {
        now_ms - last_change_ms
    } else {
        0
    };
    if elapsed > IDLE_THRESHOLD_MS {
        idle_interval(active_secs)
    } else {
        active_secs
    }
}

impl PollState {
    /// The state before the first scan: no listeners seen, and the clock
    /// reading `now_ms` taken as the time of the last change.
    pub fn new(now_ms: u64) -> (state: PollState)
        ensures
            state.previous@.len() == 0,
            state.last_change_ms == now_ms,
            state.interval_secs == 0,
    {
        PollState { previous: Vec::new(), last_change_ms: now_ms, interval_secs: 0 }
    }

    /// Takes in the result of one scan, made at clock reading `now_ms` while
    /// the configured poll interval is `active_secs`.
    ///
    /// * A scan that differs from the previous snapshot becomes the previous
    ///   snapshot, the time of the last change becomes `now_ms`, and the next
    ///   scan follows without delay.
    /// * A scan that does not differ changes nothing; the delay is the active
    ///   or the idle interval, by the time since the last change.
    /// * A failed scan changes nothing; the delay is the active interval.
    pub fn observe(
        &mut self,
        scan: Result<Vec<ProcessInfo>, String>,
        now_ms: u64,
        active_secs: u64,
    ) -> (verdict: PollVerdict)
        ensures
            match scan {
                Ok(records) => if changed(listeners(old(self).previous@), listeners(records@)) {
                    &&& verdict matches PollVerdict::Changed(snapshot)
                    &&& listeners(snapshot@) == sorted_listeners(listeners(records@))
                    &&& listeners(final(self).previous@) == sorted_listeners(listeners(records@))
                    &&& final(self).last_change_ms == now_ms
                    &&& final(self).interval_secs == 0
                } else {
                    &&& verdict is Unchanged
                    &&& listeners(final(self).previous@) == listeners(old(self).previous@)
                    &&& final(self).last_change_ms == old(self).last_change_ms
                    &&& final(self).interval_secs == unchanged_interval_secs(
                        old(self).last_change_ms,
                        now_ms,
                        active_secs,
                    )
                },
                Err(message) => {
                    &&& verdict matches PollVerdict::ScanFailed(text)
                    &&& text@ == message@
                    &&& listeners(final(self).previous@) == listeners(old(self).previous@)
                    &&& final(self).last_change_ms == old(self).last_change_ms
                    &&& final(self).interval_secs == active_secs
                },
            },
    {
        match scan {
            Ok(records) => {
                let sorted = sort_records(&records);
                if same_records(&sorted, &self.previous) {
                    self.interval_secs = unchanged_interval(
                        self.last_change_ms,
                        now_ms,
                        active_secs,
                    );
                    PollVerdict::Unchanged
                } else {
                    self.previous = duplicate_records(&sorted);
                    self.last_change_ms = now_ms;
                    self.interval_secs = 0;
                    PollVerdict::Changed(sorted)
                }
            },
            Err(message) => {
                self.interval_secs = active_secs;
                PollVerdict::ScanFailed(message)
            },
        }
    }
}

} // verus!
