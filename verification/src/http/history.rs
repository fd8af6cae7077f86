//! The log of the requests that were sent by hand.

use vstd::prelude::*;
use crate::http::request::SendRequestInput;
use crate::http::response::SendRequestOutput;
use crate::outside::{fresh_id, uuid_to_string};

verus! {

/// One request of the log with its response. `timestamp` is the time at
/// which it was logged, as RFC 3339 writes it.
#[derive(Debug, Clone)]
pub struct HistoryEntry {
    pub id: String,
    pub input: SendRequestInput,
    pub output: SendRequestOutput,
    pub timestamp: String,
}

/// The latest requests, oldest first, never more than a given number.
pub struct RequestHistory {
    entries: Vec<HistoryEntry>,
    max_entries: usize,
}

/// `chrono::Utc::now` followed by `DateTime::to_rfc3339`: the present time
/// as text. Nothing is claimed of it.
#[verifier::external_body]
fn now_rfc3339() -> String {
    chrono::Utc::now().to_rfc3339()
}

/// The log after one more entry: the entry comes last, and the oldest one
/// leaves where the log would hold more than `max_entries`.
pub open spec fn appended(entries: Seq<HistoryEntry>, entry: HistoryEntry, max_entries: usize) -> Seq<
    HistoryEntry,
> {
    if entries.len() + 1 > max_entries {
        entries.push(entry).drop_first()
    } else {
        entries.push(entry)
    }
}

/// The log as the contracts read it: its entries, oldest first, and the
/// greatest number of entries that it keeps.
pub struct HistoryLog {
    pub entries: Seq<HistoryEntry>,
    pub max_entries: usize,
}

impl View for RequestHistory {
    type V = HistoryLog;

    closed spec fn view(&self) -> HistoryLog {
        HistoryLog { entries: self.entries@, max_entries: self.max_entries }
    }
}

impl RequestHistory {
    /// An empty log that keeps at most `max_entries` entries.
    pub fn new(max_entries: usize) -> (history: Self)
        ensures
            history@ == (HistoryLog { entries: Seq::empty(), max_entries }),
    {
        RequestHistory { entries: Vec::new(), max_entries }
    }

    /// Logs a request with its response and returns the identifier that the
    /// entry was given.
    pub fn add(&mut self, input: SendRequestInput, output: SendRequestOutput) -> (id: String)
        ensures
            final(self)@.max_entries == old(self)@.max_entries,
            exists|entry: HistoryEntry|
                entry.input == input && entry.output == output && entry.id@ == id@
                    && final(self)@.entries == #[trigger] appended(
                    old(self)@.entries,
                    entry,
                    old(self)@.max_entries,
                ),
    {
        let id = uuid_to_string(&fresh_id());
        let timestamp = now_rfc3339();
        let entry = HistoryEntry { id: id.clone(), input, output, timestamp };
        let ghost logged = entry;
        self.entries.push(entry);
        if self.entries.len() > self.max_entries {
            self.entries.remove(0);
            assert(self.entries@ =~= old(self).entries@.push(logged).drop_first());
        }
        assert(self@.entries == appended(old(self)@.entries, logged, old(self)@.max_entries));
        id
    }

    /// The entries, oldest first.
    pub fn list(&self) -> (entries: &[HistoryEntry])
        ensures
            entries@ == self@.entries,
    {
        self.entries.as_slice()
    }

    /// Removes every entry.
    pub fn clear(&mut self)
        ensures
            final(self)@ == (HistoryLog { entries: Seq::empty(), max_entries: old(self)@.max_entries }),
    {
        self.entries.clear();
    }
}

} // verus!
