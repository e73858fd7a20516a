//! When a change of the configuration file leads to reading it again.
//!
//! Editors tend to write a file in several steps. Between two reloads at
//! least [`CONFIG_DEBOUNCE_MS`] must pass; changes that come sooner are
//! passed over.

use vstd::prelude::*;

verus! {

/// The shortest time between two reloads, in milliseconds.
pub const CONFIG_DEBOUNCE_MS: u64 = 500;

/// What happened to the watched file.
#[derive(Clone, Copy, Debug, PartialEq, Eq, Structural)]
pub enum FileChange {
    Modified,
    Created,
    /// Anything else: an access, a removal, a rename.
    Other,
}

/// What the watcher remembers between two events.
#[derive(Clone, Copy, Debug, PartialEq, Eq, Structural)]
pub struct ReloadClock {
    /// Clock reading of the last reload, if there was one.
    pub last_reload_ms: Option<u64>,
}

/// Whether a change calls for a reload: the file was written or created,
/// and the last reload, if any, is at least [`CONFIG_DEBOUNCE_MS`] ago. A
/// clock reading before the last reload counts as no time having passed.
pub open spec fn calls_for_reload(clock: ReloadClock, change: FileChange, now_ms: u64) -> bool {
    (change == FileChange::Modified || change == FileChange::Created) && (match clock.last_reload_ms {
        Some(last) => now_ms >= last && now_ms - last >= CONFIG_DEBOUNCE_MS,
        None => true,
    })
}

impl ReloadClock {
    /// The clock of a watcher that has not reloaded yet.
    pub fn new() -> (clock: ReloadClock)
        ensures
            clock.last_reload_ms.is_none(),
    {
        ReloadClock { last_reload_ms: None }
    }

    /// Takes in a change of the file seen at clock reading `now_ms` and says
    /// whether to read the configuration again. If so, `now_ms` becomes the
    /// time of the last reload.
    pub fn on_file_event(&mut self, change: FileChange, now_ms: u64) -> (reload: bool)
        ensures
            reload == calls_for_reload(*old(self), change, now_ms),
            final(self).last_reload_ms == (if reload {
                Some(now_ms)
            } else {
                old(self).last_reload_ms
            }),
    {
        let relevant = match change {
            FileChange::Modified => true,
            FileChange::Created => true,
            FileChange::Other => false,
        };
        let due = match self.last_reload_ms {
            Some(last) => now_ms >= last && now_ms - last >= CONFIG_DEBOUNCE_MS,
            None => true,
        };
        if relevant && due {
            self.last_reload_ms = Some(now_ms);
            true
        } else {
            false
        }
    }
}

/// The message for a configuration that could not be read again.
pub fn reload_failed_message(reason: &str) -> (message: String)
    ensures
        message@ == "Config reload failed: "@ + reason@,
{
    let mut message = String::from_str("Config reload failed: ");
    message.append(reason);
    message
}

} // verus!
