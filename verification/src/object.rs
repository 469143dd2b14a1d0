//! Object storage: metadata and a simple in-memory store for early
//! integration testing.

use vstd::prelude::*;

use crate::block::BlockError;
use crate::kvlist::KvList;

verus! {

/// Identifier assigned to each stored object.
pub type ObjectId = u128;

/// Metadata stub describing an object.
#[derive(Clone, Copy, Debug, PartialEq, Eq, Structural)]
pub struct ObjectMetadata {
    pub id: ObjectId,
    pub size: u64,
    pub checksum: u64,
}

/// Storage backend interface that higher layers can target.
pub trait ObjectStore {
    fn put(&mut self, key: &str, data: &[u8]) -> Result<ObjectMetadata, ObjectError>;

    fn get(&self, key: &str, buffer: &mut Vec<u8>) -> Result<ObjectMetadata, ObjectError>;

    fn delete(&mut self, key: &str) -> Result<(), ObjectError>;
}

/// What an object operation can fail with.
#[derive(Debug, Clone, Copy, PartialEq, Eq, Structural)]
pub enum ObjectError {
    NotFound,
    Backend(BlockError),
    InvalidKey,
}

/// Simple in-memory object store: a map from keys to byte payloads.
pub struct InMemoryObjectStore {
    next_id: ObjectId,
    objects: KvList<Vec<u8>>,
}

impl InMemoryObjectStore {
    /// The stored keys, in insertion order.
    pub closed spec fn spec_keys(&self) -> Seq<Seq<char>> {
        self.objects.spec_keys()
    }

    /// The payload stored under `k`, if any.
    pub closed spec fn spec_object(&self, k: Seq<char>) -> Option<Seq<u8>> {
        match self.objects.spec_get(k) {
            Some(v) => Some(v@),
            None => None,
        }
    }

    /// The id the next put will assign.
    pub closed spec fn spec_next_id(&self) -> ObjectId {
        self.next_id
    }

    /// Keys are unique; ids start at one and never return to zero.
    pub closed spec fn wf(&self) -> bool {
        &&& self.objects.wf()
        &&& self.next_id >= 1
    }

    /// Creates an empty store; ids start at one.
    pub fn new() -> (r: InMemoryObjectStore)
        ensures
            r.wf(),
            r.spec_keys().len() == 0,
            r.spec_next_id() == 1,
    {
        InMemoryObjectStore { next_id: 1, objects: KvList::new() }
    }

    fn allocate_id(&mut self) -> (id: ObjectId)
        requires
            old(self).wf(),
        ensures
            final(self).wf(),
            id == old(self).spec_next_id(),
            final(self).spec_keys() == old(self).spec_keys(),
            forall|k: Seq<char>| final(self).spec_object(k) == old(self).spec_object(k),
    {
        let id = self.next_id;
        let bumped = self.next_id.wrapping_add(1);
        self.next_id = if bumped >= 1 {
            bumped
        } else {
            1
        };
        id
    }

    /// Stores `data` under `key`, assigning a fresh id; an empty key is
    /// refused.
    pub fn put(&mut self, key: &str, data: &[u8]) -> (r: Result<ObjectMetadata, ObjectError>)
        requires
            old(self).wf(),
        ensures
            final(self).wf(),
            key@.len() == 0 ==> r == Err::<ObjectMetadata, ObjectError>(ObjectError::InvalidKey)
                && *final(self) == *old(self),
            key@.len() > 0 ==> match r {
                Ok(meta) => {
                    &&& meta.id == old(self).spec_next_id()
                    &&& meta.size == data@.len()
                    &&& meta.checksum == 0
                    &&& final(self).spec_object(key@) == Some(data@)
                    &&& forall|k: Seq<char>|
                        k != key@ ==> final(self).spec_object(k) == old(self).spec_object(k)
                },
                Err(_) => false,
            },
    {
        if key.is_empty() {
            return Err(ObjectError::InvalidKey);
        }
        let id = self.allocate_id();
        let stored = crate::bytes::subvec(data, 0, data.len());
        proof {
            assert(stored@ =~= data@);
        }
        let _ = self.objects.insert(key, stored);
        Ok(ObjectMetadata { id, size: data.len() as u64, checksum: 0 })
    }

    /// Reads the payload stored under `key` into `buffer`; the buffer must
    /// be at least as long as the payload, and bytes past it are kept.
    pub fn get(&self, key: &str, buffer: &mut Vec<u8>) -> (r: Result<ObjectMetadata, ObjectError>)
        requires
            self.wf(),
        ensures
            match r {
                Ok(meta) => {
                    &&& self.spec_object(key@) is Some
                    &&& meta.size == self.spec_object(key@).unwrap().len()
                    &&& meta.id == 0
                    &&& final(buffer)@.len() == old(buffer)@.len()
                    &&& final(buffer)@ =~= self.spec_object(key@).unwrap() + old(buffer)@.skip(
                        self.spec_object(key@).unwrap().len() as int,
                    )
                },
                Err(e) => {
                    &&& final(buffer)@ == old(buffer)@
                    &&& match e {
                        ObjectError::NotFound => self.spec_object(key@) is None,
                        ObjectError::Backend(be) => be == BlockError::OutOfRange && self.spec_object(
                            key@,
                        ) is Some && old(buffer)@.len() < self.spec_object(key@).unwrap().len(),
                        _ => false,
                    }
                },
            },
    {
        let data = match self.objects.get(key) {
            Some(d) => d,
            None => {
                return Err(ObjectError::NotFound);
            },
        };
        if buffer.len() < data.len() {
            return Err(ObjectError::Backend(BlockError::OutOfRange));
        }
        let mut i: usize = 0;
        while i < data.len()
            invariant
                i <= data@.len() <= buffer@.len(),
                buffer@.len() == old(buffer)@.len(),
                forall|j: int| 0 <= j < i ==> buffer@[j] == data@[j],
                forall|j: int| i <= j < buffer@.len() ==> buffer@[j] == old(buffer)@[j],
            decreases data@.len() - i,
        {
            let b = data[i];
            buffer.set(i, b);
            i += 1;
        }
        Ok(ObjectMetadata { id: 0, size: data.len() as u64, checksum: 0 })
    }

    /// Removes the payload stored under `key`.
    pub fn delete(&mut self, key: &str) -> (r: Result<(), ObjectError>)
        requires
            old(self).wf(),
        ensures
            final(self).wf(),
            final(self).spec_next_id() == old(self).spec_next_id(),
            match r {
                Ok(()) => {
                    &&& old(self).spec_object(key@) is Some
                    &&& final(self).spec_object(key@) is None
                    &&& forall|k: Seq<char>|
                        k != key@ ==> final(self).spec_object(k) == old(self).spec_object(k)
                },
                Err(e) => {
                    &&& e == ObjectError::NotFound
                    &&& old(self).spec_object(key@) is None
                    &&& *final(self) == *old(self)
                },
            },
    {
        match self.objects.remove(key) {
            Some(_) => Ok(()),
            None => Err(ObjectError::NotFound),
        }
    }
}

} // verus!
