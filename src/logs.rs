//! A bounded record of engine output: each line classified, the oldest
//! dropped once the capacity is reached.

use vstd::prelude::*;
use crate::models::LogEntry;
use crate::text::{contains, contains_str};

verus! {

pub open spec fn entry_view(e: LogEntry) -> (u64, Seq<char>, Seq<char>) {
    (e.timestamp, e.level@, e.message@)
}

pub open spec fn entries_view(v: Seq<LogEntry>) -> Seq<(u64, Seq<char>, Seq<char>)> {
    v.map_values(|e: LogEntry| entry_view(e))
}

/// A copy of a log record.
pub fn copy_entry(e: &LogEntry) -> (r: LogEntry)
    ensures
        entry_view(r) == entry_view(*e),
{
    LogEntry { timestamp: e.timestamp, level: e.level.clone(), message: e.message.clone() }
}

/// The severity the engine marks a stderr line with.
pub open spec fn stderr_level(line: Seq<char>) -> Seq<char> {
    if contains(line, "[Warning]"@) {
        "warning"@
    } else if contains(line, "[Error]"@) {
        "error"@
    } else {
        "info"@
    }
}

/// Classifies a line of engine stderr as warning, error or info.
pub fn classify_level(line: &str) -> (r: &'static str)
    ensures
        r@ == stderr_level(line@),
{
    if contains_str(line, "[Warning]") {
        "warning"
    } else if contains_str(line, "[Error]") {
        "error"
    } else {
        "info"
    }
}

/// A fixed-capacity buffer of log records, oldest first.
pub struct LogBuffer {
    entries: Vec<LogEntry>,
    capacity: usize,
}

impl LogBuffer {
    pub closed spec fn wf(&self) -> bool {
        0 < self.capacity && self.entries.len() <= self.capacity
    }

    pub closed spec fn view(&self) -> Seq<(u64, Seq<char>, Seq<char>)> {
        entries_view(self.entries@)
    }

    pub closed spec fn cap(&self) -> nat {
        self.capacity as nat
    }

    /// An empty buffer holding at most `capacity` records.
    pub fn new(capacity: usize) -> (r: Self)
        requires
            capacity > 0,
        ensures
            r.wf(),
            r.view() == Seq::<(u64, Seq<char>, Seq<char>)>::empty(),
            r.cap() == capacity,
    {
        let r = LogBuffer { entries: Vec::new(), capacity };
        assert(r.view() =~= Seq::<(u64, Seq<char>, Seq<char>)>::empty());
        r
    }

    pub fn capacity(&self) -> (r: usize)
        ensures
            r == self.cap(),
    {
        self.capacity
    }

    pub fn len(&self) -> (r: usize)
        ensures
            r == self.view().len(),
    {
        self.entries.len()
    }

    /// Appends a record, dropping the oldest one when the buffer is full.
    pub fn push(&mut self, entry: LogEntry)
        requires
            old(self).wf(),
        ensures
            final(self).wf(),
            final(self).cap() == old(self).cap(),
            final(self).view() == if old(self).view().len() >= old(self).cap() {
                old(self).view().drop_first().push(entry_view(entry))
            } else {
                old(self).view().push(entry_view(entry))
            },
    {
        let ghost before = self.entries@;
        if self.entries.len() >= self.capacity {
            self.entries.remove(0);
            assert(entries_view(self.entries@) =~= entries_view(before).drop_first());
        }
        let ghost mid = self.entries@;
        self.entries.push(entry);
        assert(entries_view(self.entries@) =~= entries_view(mid).push(entry_view(entry)));
    }

    /// Copies of all records, oldest first.
    pub fn snapshot(&self) -> (r: Vec<LogEntry>)
        ensures
            entries_view(r@) == self.view(),
    {
        let mut r: Vec<LogEntry> = Vec::new();
        let mut i: usize = 0;
        while i < self.entries.len()
            invariant
                i <= self.entries.len(),
                r.len() == i,
                entries_view(r@) == entries_view(self.entries@.subrange(0, i as int)),
            decreases self.entries.len() - i,
        {
            let ghost before = r@;
            let e = copy_entry(&self.entries[i]);
            r.push(e);
            proof {
                let a = entries_view(r@);
                let b = entries_view(self.entries@.subrange(0, i + 1));
                assert forall|j: int| 0 <= j < a.len() implies a[j] == b[j] by {
                    if j < i {
                        assert(r@[j] == before[j]);
                        assert(entries_view(before)[j] == entry_view(before[j]));
                        assert(self.entries@.subrange(0, i + 1)[j] == self.entries@.subrange(0, i as int)[j]);
                    } else {
                        assert(r@[j] == e);
                    }
                }
                assert(a =~= b);
            }
            i += 1;
        }
        assert(self.entries@.subrange(0, self.entries@.len() as int) =~= self.entries@);
        r
    }

    /// Removes every record.
    pub fn clear(&mut self)
        requires
            old(self).wf(),
        ensures
            final(self).wf(),
            final(self).cap() == old(self).cap(),
            final(self).view() == Seq::<(u64, Seq<char>, Seq<char>)>::empty(),
    {
        self.entries.clear();
        assert(entries_view(self.entries@) =~= Seq::<(u64, Seq<char>, Seq<char>)>::empty());
    }
}

/// Appends a record made of a time, a level and a message.
pub fn push_log_entry(logs: &mut LogBuffer, level: &str, message: &str, now: u64)
    requires
        old(logs).wf(),
    ensures
        final(logs).wf(),
        final(logs).cap() == old(logs).cap(),
        final(logs).view() == if old(logs).view().len() >= old(logs).cap() {
            old(logs).view().drop_first().push((now, level@, message@))
        } else {
            old(logs).view().push((now, level@, message@))
        },
{
    let entry = LogEntry { timestamp: now, level: level.to_owned(), message: message.to_owned() };
    logs.push(entry);
}

} // verus!
