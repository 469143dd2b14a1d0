//! Bucket catalog: buckets hold object metadata keyed by object name.

use vstd::prelude::*;

use crate::kvlist::KvList;
use crate::object::ObjectMetadata;

verus! {

/// Minimal bucket descriptor a listing yields.
pub struct BucketInfo {
    pub name: String,
    pub object_count: u64,
}

/// Catalog interface for bucket and object bookkeeping.
pub trait Catalog {
    fn create_bucket(&mut self, name: &str) -> Result<(), CatalogError>;

    fn delete_bucket(&mut self, name: &str) -> Result<(), CatalogError>;

    fn list_buckets(&self) -> Vec<BucketInfo>;

    fn put_object(&mut self, bucket: &str, key: &str, meta: ObjectMetadata) -> Result<
        (),
        CatalogError,
    >;

    fn remove_object(&mut self, bucket: &str, key: &str) -> Result<(), CatalogError>;

    fn object_metadata(&self, bucket: &str, key: &str) -> Result<ObjectMetadata, CatalogError>;
}

/// What a catalog operation can fail with.
#[derive(Debug, Clone, Copy, PartialEq, Eq, Structural)]
pub enum CatalogError {
    NotFound,
    AlreadyExists,
    InvalidName,
    Backend,
}

struct Bucket {
    objects: KvList<ObjectMetadata>,
}

/// In-memory catalog: buckets in creation order, each holding object
/// metadata keyed by object name.
pub struct InMemoryCatalog {
    buckets: KvList<Bucket>,
}

impl InMemoryCatalog {
    /// The bucket names, in creation order.
    pub closed spec fn spec_bucket_names(&self) -> Seq<Seq<char>> {
        self.buckets.spec_keys()
    }

    /// Whether a bucket with the given name exists.
    pub open spec fn spec_has_bucket(&self, b: Seq<char>) -> bool {
        self.spec_bucket_names().contains(b)
    }

    /// The number of objects in the bucket at position `i`.
    pub closed spec fn spec_object_count(&self, i: int) -> int {
        self.buckets.spec_vals()[i].objects.spec_len()
    }

    /// The metadata stored for `key` in `bucket`, if both exist.
    pub closed spec fn spec_metadata(&self, b: Seq<char>, k: Seq<char>) -> Option<ObjectMetadata> {
        match self.buckets.spec_get(b) {
            Some(bucket) => bucket.objects.spec_get(k),
            None => None,
        }
    }

    /// Buckets and objects have unique names.
    pub closed spec fn wf(&self) -> bool {
        &&& self.buckets.wf()
        &&& forall|i: int|
            0 <= i < self.buckets.spec_len() ==> (#[trigger] self.buckets.spec_vals()[i]).objects.wf()
    }

    /// A bucket lookup succeeds exactly for the stored names.
    proof fn lemma_bucket_lookup(&self, b: Seq<char>)
        requires
            self.wf(),
        ensures
            self.spec_has_bucket(b) <==> (match self.buckets.spec_get(b) {
                Some(_) => true,
                None => false,
            }),
    {
        crate::kvlist::lemma_find_key(self.spec_bucket_names(), b, 0);
        if self.spec_has_bucket(b) {
            let i = choose|i: int|
                0 <= i < self.spec_bucket_names().len() && self.spec_bucket_names()[i] == b;
        }
    }

    /// Creates an empty catalog.
    pub fn new() -> (r: InMemoryCatalog)
        ensures
            r.wf(),
            r.spec_bucket_names().len() == 0,
            forall|b: Seq<char>, k: Seq<char>| r.spec_metadata(b, k) is None,
    {
        let r = InMemoryCatalog { buckets: KvList::new() };
        proof {
            assert forall|b: Seq<char>, k: Seq<char>| r.spec_metadata(b, k) is None by {
                crate::kvlist::lemma_find_key(r.buckets.spec_keys(), b, 0);
            }
        }
        r
    }

    /// Creates a bucket: an empty name is `InvalidName`, an existing one
    /// `AlreadyExists`; otherwise the new bucket is appended, empty.
    pub fn create_bucket(&mut self, name: &str) -> (r: Result<(), CatalogError>)
        requires
            old(self).wf(),
        ensures
            final(self).wf(),
            name@.len() == 0 ==> r == Err::<(), CatalogError>(CatalogError::InvalidName) && *final(self) == *old(self),
            name@.len() > 0 && old(self).spec_has_bucket(name@) ==> r == Err::<(), CatalogError>(
                CatalogError::AlreadyExists,
            ) && *final(self) == *old(self),
            name@.len() > 0 && !old(self).spec_has_bucket(name@) ==> {
                &&& r is Ok
                &&& final(self).spec_bucket_names() == old(self).spec_bucket_names().push(name@)
                &&& final(self).spec_object_count(old(self).spec_bucket_names().len() as int) == 0
                &&& forall|b: Seq<char>, k: Seq<char>|
                    b != name@ ==> #[trigger] final(self).spec_metadata(b, k) == old(self).spec_metadata(b, k)
                &&& forall|k: Seq<char>| final(self).spec_metadata(name@, k) is None
            },
    {
        if name.is_empty() {
            return Err(CatalogError::InvalidName);
        }
        proof {
            crate::kvlist::lemma_find_key(self.spec_bucket_names(), name@, 0);
        }
        if self.buckets.contains(name) {
            proof {
                self.lemma_bucket_lookup(name@);
            }
            return Err(CatalogError::AlreadyExists);
        }
        proof {
            self.lemma_bucket_lookup(name@);
        }
        let _ = self.buckets.insert(name, Bucket { objects: KvList::new() });
        proof {
            assert forall|j: int|
                0 <= j < self.buckets.spec_len() implies (
            #[trigger] self.buckets.spec_vals()[j]).objects.wf() by {
                if j < old(self).buckets.spec_len() {
                    assert(self.buckets.spec_vals()[j] == old(self).buckets.spec_vals()[j]);
                }
            }
        }
        Ok(())
    }

    /// Deletes a bucket and everything in it; a missing name is
    /// `NotFound`.
    pub fn delete_bucket(&mut self, name: &str) -> (r: Result<(), CatalogError>)
        requires
            old(self).wf(),
        ensures
            final(self).wf(),
            old(self).spec_has_bucket(name@) ==> {
                &&& r is Ok
                &&& !final(self).spec_has_bucket(name@)
                &&& forall|b: Seq<char>, k: Seq<char>|
                    b != name@ ==> #[trigger] final(self).spec_metadata(b, k) == old(self).spec_metadata(b, k)
            },
            !old(self).spec_has_bucket(name@) ==> r == Err::<(), CatalogError>(CatalogError::NotFound)
                && *final(self) == *old(self),
    {
        proof {
            self.lemma_bucket_lookup(name@);
        }
        let ghost oi = self.buckets.spec_index_of(name@);
        match self.buckets.remove(name) {
            Some(_) => {
                proof {
                    assert(oi is Some);
                    old(self).buckets.lemma_index_in_range(name@);
                    let i = oi.unwrap();
                    old(self).buckets.spec_vals().remove_ensures(i);
                    assert forall|j: int|
                        0 <= j < self.buckets.spec_len() implies (
                    #[trigger] self.buckets.spec_vals()[j]).objects.wf() by {
                        let pj = if j < i {
                            j
                        } else {
                            j + 1
                        };
                        assert(self.buckets.spec_vals()[j] == old(self).buckets.spec_vals()[pj]);
                    }
                    self.lemma_bucket_lookup(name@);
                }
                Ok(())
            },
            None => Err(CatalogError::NotFound),
        }
    }

    /// Lists every bucket with its object count, in creation order.
    pub fn list_buckets(&self) -> (r: Vec<BucketInfo>)
        requires
            self.wf(),
        ensures
            r@.len() == self.spec_bucket_names().len(),
            forall|i: int|
                0 <= i < r@.len() ==> (#[trigger] r@[i]).name@ == self.spec_bucket_names()[i]
                    && r@[i].object_count == self.spec_object_count(i),
    {
        let mut out: Vec<BucketInfo> = Vec::new();
        let mut i: usize = 0;
        let n = self.buckets.len();
        while i < n
            invariant
                self.wf(),
                n == self.spec_bucket_names().len(),
                i <= n,
                out@.len() == i,
                forall|j: int|
                    0 <= j < i ==> (#[trigger] out@[j]).name@ == self.spec_bucket_names()[j]
                        && out@[j].object_count == self.spec_object_count(j),
            decreases n - i,
        {
            let name = self.buckets.key_at(i).clone();
            let count = self.buckets.val_at(i).objects.len();
            let count64 = if count as u64 <= u64::MAX {
                count as u64
            } else {
                u64::MAX
            };
            out.push(BucketInfo { name, object_count: count64 });
            i += 1;
        }
        out
    }

    /// Stores object metadata in a bucket: an empty key is `InvalidName`,
    /// a missing bucket `NotFound`; otherwise the binding is replaced or
    /// appended.
    pub fn put_object(&mut self, bucket: &str, key: &str, meta: ObjectMetadata) -> (r: Result<
        (),
        CatalogError,
    >)
        requires
            old(self).wf(),
        ensures
            final(self).wf(),
            key@.len() == 0 ==> r == Err::<(), CatalogError>(CatalogError::InvalidName) && *final(self) == *old(self),
            key@.len() > 0 && !old(self).spec_has_bucket(bucket@) ==> r == Err::<(), CatalogError>(
                CatalogError::NotFound,
            ) && *final(self) == *old(self),
            key@.len() > 0 && old(self).spec_has_bucket(bucket@) ==> {
                &&& r is Ok
                &&& final(self).spec_bucket_names() == old(self).spec_bucket_names()
                &&& final(self).spec_metadata(bucket@, key@) == Some(meta)
                &&& forall|b: Seq<char>, k: Seq<char>|
                    b != bucket@ || k != key@ ==> #[trigger] final(self).spec_metadata(b, k) == old(self).spec_metadata(b, k)
            },
    {
        if key.is_empty() {
            return Err(CatalogError::InvalidName);
        }
        proof {
            self.lemma_bucket_lookup(bucket@);
        }
        let i = match self.buckets.index_of(bucket) {
            Some(i) => i,
            None => {
                return Err(CatalogError::NotFound);
            },
        };
        proof {
            crate::kvlist::lemma_find_key(self.spec_bucket_names(), bucket@, 0);
            self.buckets.lemma_index_in_range(bucket@);
        }
        let mut b = self.buckets.replace_at(i, Bucket { objects: KvList::new() });
        let _ = b.objects.insert(key, meta);
        let _ = self.buckets.replace_at(i, b);
        proof {
            assert forall|j: int|
                0 <= j < self.buckets.spec_len() implies (
            #[trigger] self.buckets.spec_vals()[j]).objects.wf() by {
                if j != i {
                    assert(self.buckets.spec_vals()[j] == old(self).buckets.spec_vals()[j]);
                }
            }
            lemma_catalog_bucket_update(*old(self), *self, bucket@, i as int);
        }
        Ok(())
    }

    /// Removes an object's metadata: missing bucket or key is `NotFound`.
    pub fn remove_object(&mut self, bucket: &str, key: &str) -> (r: Result<(), CatalogError>)
        requires
            old(self).wf(),
        ensures
            final(self).wf(),
            old(self).spec_metadata(bucket@, key@) is None ==> {
                &&& r == Err::<(), CatalogError>(CatalogError::NotFound)
                &&& final(self).spec_bucket_names() == old(self).spec_bucket_names()
                &&& forall|b: Seq<char>, k: Seq<char>|
                    #[trigger] final(self).spec_metadata(b, k) == old(self).spec_metadata(b, k)
            },
            old(self).spec_metadata(bucket@, key@) is Some ==> {
                &&& r is Ok
                &&& final(self).spec_bucket_names() == old(self).spec_bucket_names()
                &&& final(self).spec_metadata(bucket@, key@) is None
                &&& forall|b: Seq<char>, k: Seq<char>|
                    b != bucket@ || k != key@ ==> #[trigger] final(self).spec_metadata(b, k) == old(self).spec_metadata(b, k)
            },
    {
        proof {
            self.lemma_bucket_lookup(bucket@);
        }
        let i = match self.buckets.index_of(bucket) {
            Some(i) => i,
            None => {
                return Err(CatalogError::NotFound);
            },
        };
        proof {
            self.buckets.lemma_index_in_range(bucket@);
        }
        let mut b = self.buckets.replace_at(i, Bucket { objects: KvList::new() });
        let removed = b.objects.remove(key);
        let hit = removed.is_some();
        let _ = self.buckets.replace_at(i, b);
        proof {
            assert forall|j: int|
                0 <= j < self.buckets.spec_len() implies (
            #[trigger] self.buckets.spec_vals()[j]).objects.wf() by {
                if j != i {
                    assert(self.buckets.spec_vals()[j] == old(self).buckets.spec_vals()[j]);
                }
            }
            lemma_catalog_bucket_update(*old(self), *self, bucket@, i as int);
        }
        if hit {
            Ok(())
        } else {
            proof {
                assert(old(self).spec_metadata(bucket@, key@) is None);
            }
            Err(CatalogError::NotFound)
        }
    }

    /// Looks up an object's metadata: missing bucket or key is `NotFound`.
    pub fn object_metadata(&self, bucket: &str, key: &str) -> (r: Result<
        ObjectMetadata,
        CatalogError,
    >)
        requires
            self.wf(),
        ensures
            match r {
                Ok(meta) => self.spec_metadata(bucket@, key@) == Some(meta),
                Err(e) => e == CatalogError::NotFound && self.spec_metadata(bucket@, key@) is None,
            },
    {
        let b = match self.buckets.get(bucket) {
            Some(b) => b,
            None => {
                return Err(CatalogError::NotFound);
            },
        };
        proof {
            self.buckets.lemma_index_in_range(bucket@);
            assert(b.objects.wf());
        }
        match b.objects.get(key) {
            Some(meta) => Ok(*meta),
            None => Err(CatalogError::NotFound),
        }
    }
}

/// After replacing the bucket at `i` (named `b`) with a new value, other
/// buckets' metadata is unchanged and the target's metadata is the new
/// bucket's map.
proof fn lemma_catalog_bucket_update(
    pre: InMemoryCatalog,
    post: InMemoryCatalog,
    b: Seq<char>,
    i: int,
)
    requires
        pre.wf(),
        post.wf(),
        0 <= i < pre.buckets.spec_len(),
        pre.buckets.spec_keys()[i] == b,
        post.buckets.spec_keys() == pre.buckets.spec_keys(),
        post.buckets.spec_vals().len() == pre.buckets.spec_vals().len(),
        forall|j: int|
            0 <= j < pre.buckets.spec_vals().len() && j != i ==> post.buckets.spec_vals()[j]
                == pre.buckets.spec_vals()[j],
    ensures
        forall|b2: Seq<char>, k: Seq<char>|
            b2 != b ==> #[trigger] post.spec_metadata(b2, k) == pre.spec_metadata(b2, k),
        post.buckets.spec_get(b) == Some(post.buckets.spec_vals()[i]),
        pre.buckets.spec_get(b) == Some(pre.buckets.spec_vals()[i]),
{
    pre.buckets.lemma_get_characterization(b);
    post.buckets.lemma_get_characterization(b);
    assert forall|b2: Seq<char>, k: Seq<char>| b2 != b implies #[trigger] post.spec_metadata(b2, k)
        == pre.spec_metadata(b2, k) by {
        crate::kvlist::lemma_find_key(pre.buckets.spec_keys(), b2, 0);
        assert(post.buckets.spec_index_of(b2) == pre.buckets.spec_index_of(b2));
        if pre.buckets.spec_index_of(b2) is Some {
            let p = pre.buckets.spec_index_of(b2).unwrap();
            assert(pre.buckets.spec_keys()[p] == b2);
            assert(p != i);
        }
    }
}

} // verus!
