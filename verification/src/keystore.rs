//! API-key store: hashed key entries with the bucket they grant and their
//! permission bits.

use vstd::prelude::*;

use crate::kvlist::KvList;

verus! {

/// A hashed API key entry as the keystore hands it out.
pub struct ApiKeyEntry {
    pub key_id: String,
    pub hash: Vec<u8>,
    pub bucket: String,
    pub permissions: u32,
}

/// Keystore interface.
pub trait KeyStore {
    fn insert(&mut self, entry: ApiKeyEntry) -> Result<(), KeyStoreError>;

    fn lookup(&self, key_id: &str) -> Result<ApiKeyEntry, KeyStoreError>;
}

/// What a keystore operation can fail with.
#[derive(Debug, Clone, Copy, PartialEq, Eq, Structural)]
pub enum KeyStoreError {
    NotFound,
    Storage,
}

struct StoredEntry {
    hash: Vec<u8>,
    bucket: String,
    permissions: u32,
}

/// In-memory keystore keyed by key id; duplicate ids are refused.
pub struct InMemoryKeyStore {
    entries: KvList<StoredEntry>,
}

impl InMemoryKeyStore {
    /// The entry stored under a key id: its hash, bucket and permissions.
    pub closed spec fn spec_entry(&self, key_id: Seq<char>) -> Option<(Seq<u8>, Seq<char>, u32)> {
        match self.entries.spec_get(key_id) {
            Some(e) => Some((e.hash@, e.bucket@, e.permissions)),
            None => None,
        }
    }

    /// Key ids are unique.
    pub closed spec fn wf(&self) -> bool {
        self.entries.wf()
    }

    /// Creates an empty keystore.
    pub fn new() -> (r: InMemoryKeyStore)
        ensures
            r.wf(),
            forall|k: Seq<char>| r.spec_entry(k) is None,
    {
        let r = InMemoryKeyStore { entries: KvList::new() };
        proof {
            assert forall|k: Seq<char>| r.spec_entry(k) is None by {
                crate::kvlist::lemma_find_key(r.entries.spec_keys(), k, 0);
            }
        }
        r
    }

    /// Stores an entry under its key id; an id already present is refused
    /// as `Storage`.
    pub fn insert(&mut self, entry: ApiKeyEntry) -> (r: Result<(), KeyStoreError>)
        requires
            old(self).wf(),
        ensures
            final(self).wf(),
            old(self).spec_entry(entry.key_id@) is Some ==> r == Err::<(), KeyStoreError>(
                KeyStoreError::Storage,
            ) && *final(self) == *old(self),
            old(self).spec_entry(entry.key_id@) is None ==> {
                &&& r is Ok
                &&& final(self).spec_entry(entry.key_id@) == Some(
                    (entry.hash@, entry.bucket@, entry.permissions),
                )
                &&& forall|k: Seq<char>|
                    k != entry.key_id@ ==> #[trigger] final(self).spec_entry(k) == old(self).spec_entry(k)
            },
    {
        if self.entries.contains(entry.key_id.as_str()) {
            return Err(KeyStoreError::Storage);
        }
        let _ = self.entries.insert(
            entry.key_id.as_str(),
            StoredEntry { hash: entry.hash, bucket: entry.bucket, permissions: entry.permissions },
        );
        Ok(())
    }

    /// Looks up the entry stored under `key_id`.
    pub fn lookup(&self, key_id: &str) -> (r: Result<ApiKeyEntry, KeyStoreError>)
        requires
            self.wf(),
        ensures
            match r {
                Ok(e) => self.spec_entry(key_id@) == Some((e.hash@, e.bucket@, e.permissions))
                    && e.key_id@ == key_id@,
                Err(e) => e == KeyStoreError::NotFound && self.spec_entry(key_id@) is None,
            },
    {
        match self.entries.get(key_id) {
            Some(stored) => Ok(
                ApiKeyEntry {
                    key_id: key_id.to_owned(),
                    hash: crate::bytes::subvec(stored.hash.as_slice(), 0, stored.hash.len()),
                    bucket: stored.bucket.clone(),
                    permissions: stored.permissions,
                },
            ),
            None => Err(KeyStoreError::NotFound),
        }
    }
}

} // verus!
