//! Append-only journal of catalog mutations, replayable in order.

use vstd::prelude::*;

use crate::catalog::CatalogError;

verus! {

/// One log entry describing a catalog mutation.
pub struct JournalEntry {
    pub bucket: String,
    pub key: Option<String>,
    pub operation: Operation,
}

/// The catalog mutations a journal can record.
#[derive(Clone, Copy, Debug, PartialEq, Eq, Structural)]
pub enum Operation {
    CreateBucket,
    DeleteBucket,
    PutObject,
    DeleteObject,
}

/// Journal interface.
pub trait Journal {
    fn append(&mut self, entry: JournalEntry) -> Result<(), JournalError>;

    fn replay(&self) -> Vec<JournalEntry>;

    fn len(&self) -> usize;
}

/// What a journal operation can fail with.
#[derive(Debug, Clone, Copy, PartialEq, Eq, Structural)]
pub enum JournalError {
    Storage,
    Catalog(CatalogError),
    InvalidEntry,
}

/// An entry's validity: a bucket name is required, and object operations
/// need a non-empty key.
pub open spec fn spec_entry_valid(bucket: Seq<char>, key: Option<Seq<char>>, op: Operation) -> bool {
    &&& bucket.len() > 0
    &&& ((op == Operation::PutObject || op == Operation::DeleteObject) ==> (match key {
        Some(k) => k.len() > 0,
        None => false,
    }))
}

struct StoredEntry {
    bucket: String,
    key: Option<String>,
    operation: Operation,
}

/// In-memory journal: entries in append order.
pub struct InMemoryJournal {
    entries: Vec<StoredEntry>,
}

impl InMemoryJournal {
    /// The recorded entries: bucket, key and operation of each, in order.
    pub closed spec fn spec_entries(&self) -> Seq<(Seq<char>, Option<Seq<char>>, Operation)> {
        Seq::new(
            self.entries@.len(),
            |i: int|
                (
                    self.entries@[i].bucket@,
                    match self.entries@[i].key {
                        Some(k) => Some(k@),
                        None => None,
                    },
                    self.entries@[i].operation,
                ),
        )
    }

    /// Creates an empty journal.
    pub fn new() -> (r: InMemoryJournal)
        ensures
            r.spec_entries().len() == 0,
    {
        InMemoryJournal { entries: Vec::new() }
    }

    /// Appends an entry; invalid entries — an empty bucket, or an object
    /// operation without a key — are refused.
    pub fn append(&mut self, entry: JournalEntry) -> (r: Result<(), JournalError>)
        ensures
            spec_entry_valid(
                entry.bucket@,
                match entry.key {
                    Some(k) => Some(k@),
                    None => None,
                },
                entry.operation,
            ) ==> r is Ok && final(self).spec_entries() == old(self).spec_entries().push(
                (
                    entry.bucket@,
                    match entry.key {
                        Some(k) => Some(k@),
                        None => None,
                    },
                    entry.operation,
                ),
            ),
            !spec_entry_valid(
                entry.bucket@,
                match entry.key {
                    Some(k) => Some(k@),
                    None => None,
                },
                entry.operation,
            ) ==> r == Err::<(), JournalError>(JournalError::InvalidEntry) && final(self).spec_entries() == old(self).spec_entries(),
    {
        if entry.bucket.as_str().is_empty() {
            return Err(JournalError::InvalidEntry);
        }
        let needs_key = matches!(entry.operation, Operation::PutObject | Operation::DeleteObject);
        if needs_key {
            let key_ok = match &entry.key {
                Some(k) => !k.as_str().is_empty(),
                None => false,
            };
            if !key_ok {
                return Err(JournalError::InvalidEntry);
            }
        }
        let ghost prior = self.spec_entries();
        self.entries.push(
            StoredEntry { bucket: entry.bucket, key: entry.key, operation: entry.operation },
        );
        proof {
            assert(self.spec_entries() =~= prior.push(self.spec_entries().last()));
        }
        Ok(())
    }

    /// Replays the journal: every recorded entry, in append order.
    pub fn replay(&self) -> (r: Vec<JournalEntry>)
        ensures
            r@.len() == self.spec_entries().len(),
            forall|i: int|
                0 <= i < r@.len() ==> ((#[trigger] r@[i]).bucket@, (match r@[i].key {
                    Some(k) => Some(k@),
                    None => None,
                }), r@[i].operation) == self.spec_entries()[i],
    {
        let mut out: Vec<JournalEntry> = Vec::new();
        let mut i: usize = 0;
        while i < self.entries.len()
            invariant
                i <= self.entries@.len(),
                out@.len() == i,
                forall|j: int|
                    0 <= j < i ==> ((#[trigger] out@[j]).bucket@, (match out@[j].key {
                        Some(k) => Some(k@),
                        None => None,
                    }), out@[j].operation) == self.spec_entries()[j],
            decreases self.entries@.len() - i,
        {
            let e = &self.entries[i];
            let key: Option<String> = match &e.key {
                Some(k) => Some(k.clone()),
                None => None,
            };
            out.push(JournalEntry { bucket: e.bucket.clone(), key, operation: e.operation });
            i += 1;
        }
        out
    }

    /// Number of recorded entries.
    pub fn len(&self) -> (r: usize)
        ensures
            r == self.spec_entries().len(),
    {
        self.entries.len()
    }
}

} // verus!
