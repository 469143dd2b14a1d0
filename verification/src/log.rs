//! Bounded event log: keeps the most recent entries, dropping the oldest
//! once the capacity is reached.

use vstd::prelude::*;

verus! {

/// Event log with a fixed capacity.
pub struct EventLog {
    entries: Vec<String>,
    capacity: usize,
}

impl EventLog {
    /// The recorded events, oldest first.
    pub closed spec fn spec_entries(&self) -> Seq<Seq<char>> {
        Seq::new(self.entries@.len(), |i: int| self.entries@[i]@)
    }

    /// The log's capacity.
    pub closed spec fn spec_capacity(&self) -> int {
        self.capacity as int
    }

    /// The log never outgrows its capacity, which is at least one.
    pub closed spec fn wf(&self) -> bool {
        &&& self.capacity >= 1
        &&& self.entries@.len() <= self.capacity
    }

    /// Creates a log keeping at most `capacity` entries; zero is raised to
    /// one.
    pub fn with_capacity(capacity: usize) -> (r: EventLog)
        ensures
            r.wf(),
            r.spec_entries().len() == 0,
            r.spec_capacity() == (if capacity >= 1 {
                capacity as int
            } else {
                1int
            }),
    {
        let cap = if capacity >= 1 {
            capacity
        } else {
            1
        };
        EventLog { entries: Vec::new(), capacity: cap }
    }

    /// Records an event: appended at the tail; when the log is full the
    /// oldest entry leaves first.
    pub fn record(&mut self, event: &str)
        requires
            old(self).wf(),
        ensures
            final(self).wf(),
            final(self).spec_capacity() == old(self).spec_capacity(),
            final(self).spec_entries() == (if old(self).spec_entries().len() == old(self).spec_capacity() {
                old(self).spec_entries().drop_first().push(event@)
            } else {
                old(self).spec_entries().push(event@)
            }),
    {
        if self.entries.len() == self.capacity {
            let _ = self.entries.remove(0);
        }
        let ghost mid = self.spec_entries();
        self.entries.push(event.to_owned());
        proof {
            assert(self.spec_entries() =~= mid.push(event@));
            if old(self).spec_entries().len() == old(self).spec_capacity() {
                assert(mid =~= old(self).spec_entries().drop_first());
            }
        }
    }

    /// Copies out the recorded events, oldest first.
    pub fn snapshot(&self) -> (r: Vec<String>)
        ensures
            r@.len() == self.spec_entries().len(),
            forall|i: int| 0 <= i < r@.len() ==> (#[trigger] r@[i])@ == self.spec_entries()[i],
    {
        let mut out: Vec<String> = Vec::new();
        let mut i: usize = 0;
        while i < self.entries.len()
            invariant
                i <= self.entries@.len(),
                out@.len() == i,
                forall|j: int| 0 <= j < i ==> (#[trigger] out@[j])@ == self.spec_entries()[j],
            decreases self.entries@.len() - i,
        {
            out.push(self.entries[i].clone());
            i += 1;
        }
        out
    }
}

impl Default for EventLog {
    /// A log keeping the most recent 64 events.
    fn default() -> (r: EventLog)
        ensures
            r.wf(),
            r.spec_entries().len() == 0,
            r.spec_capacity() == 64,
    {
        EventLog::with_capacity(64)
    }
}

} // verus!
