//! Object-listing index: per-bucket key lists in lexicographic order, with
//! S3-style prefix, delimiter, continuation and page-size handling.

use vstd::prelude::*;
use vstd::string::StringSliceAdditionalSpecFns;

use crate::bytes::{bytes_lt, str_eq};
use crate::kvlist::KvList;
use crate::object::ObjectMetadata;

verus! {

/// Listing parameters for S3-style object listings.
pub struct ListRequest {
    pub bucket: String,
    pub prefix: Option<String>,
    pub delimiter: Option<u8>,
    pub continuation: Option<String>,
    pub max_keys: usize,
}

/// One listed object.
pub struct ListObject {
    pub key: String,
    pub size: u64,
}

/// Result of a listing.
pub struct ListResponse {
    pub objects: Vec<ListObject>,
    pub next_token: Option<String>,
    pub common_prefixes: Vec<String>,
}

/// Read-only listing interface.
pub trait Index {
    fn list(&self, request: &ListRequest) -> Result<ListResponse, IndexError>;
}

/// Mutating index interface.
pub trait MutableIndex: Index {
    fn insert(&mut self, bucket: &str, key: &str, meta: ObjectMetadata);

    fn remove(&mut self, bucket: &str, key: &str);

    fn purge_bucket(&mut self, bucket: &str);
}

/// What a listing can fail with.
#[derive(Debug, Clone, Copy, PartialEq, Eq, Structural)]
pub enum IndexError {
    NotFound,
    Backend,
}

/// The prefix a listing filters on, as UTF-8 bytes; no prefix filters on
/// the empty byte string.
pub open spec fn spec_prefix_bytes(prefix: Option<String>) -> Seq<u8> {
    match prefix {
        Some(p) => vstd::utf8::encode_utf8(p@),
        None => Seq::empty(),
    }
}

/// Whether byte string `a` starts with `b`.
pub open spec fn spec_bytes_prefix(a: Seq<u8>, b: Seq<u8>) -> bool {
    a.len() >= b.len() && a.take(b.len() as int) == b
}

struct BucketIndex {
    names: Vec<String>,
    metas: KvList<ObjectMetadata>,
}

/// In-memory index: per bucket, the object keys and their metadata.
pub struct InMemoryIndex {
    buckets: KvList<BucketIndex>,
}

impl InMemoryIndex {
    /// Whether the index tracks the bucket.
    pub closed spec fn spec_has_bucket(&self, b: Seq<char>) -> bool {
        self.buckets.spec_get(b) is Some
    }

    /// The keys the index lists for a bucket, in listing order.
    pub closed spec fn spec_bucket_keys(&self, b: Seq<char>) -> Seq<Seq<char>> {
        match self.buckets.spec_get(b) {
            Some(bi) => Seq::new(bi.names@.len(), |i: int| bi.names@[i]@),
            None => Seq::empty(),
        }
    }

    /// The metadata recorded for a key of a bucket.
    pub closed spec fn spec_meta(&self, b: Seq<char>, k: Seq<char>) -> Option<ObjectMetadata> {
        match self.buckets.spec_get(b) {
            Some(bi) => bi.metas.spec_get(k),
            None => None,
        }
    }

    /// Bucket names and per-bucket keys are unique.
    pub closed spec fn wf(&self) -> bool {
        &&& self.buckets.wf()
        &&& forall|i: int|
            0 <= i < self.buckets.spec_len() ==> (#[trigger] self.buckets.spec_vals()[i]).metas.wf()
    }

    /// Creates an empty index.
    pub fn new() -> (r: InMemoryIndex)
        ensures
            r.wf(),
            forall|b: Seq<char>| !r.spec_has_bucket(b),
    {
        let r = InMemoryIndex { buckets: KvList::new() };
        proof {
            assert forall|b: Seq<char>| !r.spec_has_bucket(b) by {
                crate::kvlist::lemma_find_key(r.buckets.spec_keys(), b, 0);
            }
        }
        r
    }

    /// Records a key in a bucket: the bucket entry is created on first
    /// use, the key joins the bucket's listing if new, and the metadata is
    /// replaced.
    pub fn insert(&mut self, bucket: &str, key: &str, meta: ObjectMetadata)
        requires
            old(self).wf(),
        ensures
            final(self).wf(),
            final(self).spec_has_bucket(bucket@),
            final(self).spec_meta(bucket@, key@) == Some(meta),
            final(self).spec_bucket_keys(bucket@).contains(key@),
    {
        proof {
            self.buckets.lemma_get_characterization(bucket@);
        }
        let i = match self.buckets.index_of(bucket) {
            Some(i) => i,
            None => {
                let _ = self.buckets.insert(bucket, BucketIndex { names: Vec::new(), metas: KvList::new() });
                proof {
                    self.buckets.lemma_index_in_range(bucket@);
                    assert forall|j: int|
                        0 <= j < self.buckets.spec_len() implies (
                    #[trigger] self.buckets.spec_vals()[j]).metas.wf() by {
                        if j < old(self).buckets.spec_len() {
                            assert(self.buckets.spec_vals()[j] == old(self).buckets.spec_vals()[j]);
                        }
                    }
                }
                match self.buckets.index_of(bucket) {
                    Some(i) => i,
                    None => {
                        proof {
                            assert(false);
                        }
                        0
                    },
                }
            },
        };
        proof {
            self.buckets.lemma_index_in_range(bucket@);
        }
        let mut bi = self.buckets.replace_at(i, BucketIndex { names: Vec::new(), metas: KvList::new() });
        bi.add_key(key);
        let _ = bi.metas.insert(key, meta);
        let _ = self.buckets.replace_at(i, bi);
        proof {
            let snap = *self;
            assert forall|j: int|
                0 <= j < self.buckets.spec_len() implies (
            #[trigger] self.buckets.spec_vals()[j]).metas.wf() by {
                if j != i {
                    assert(self.buckets.spec_vals()[j] == snap.buckets.spec_vals()[j]);
                }
            }
            self.buckets.lemma_get_characterization(bucket@);
            assert(self.buckets.spec_get(bucket@) == Some(self.buckets.spec_vals()[i as int]));
            let w = choose|w: int| 0 <= w < bi.names@.len() && (#[trigger] bi.names@[w])@ == key@;
            assert(self.spec_bucket_keys(bucket@)[w] == key@);
        }
    }

    /// Forgets a key of a bucket; other keys and buckets are untouched.
    pub fn remove(&mut self, bucket: &str, key: &str)
        requires
            old(self).wf(),
        ensures
            final(self).wf(),
            final(self).spec_meta(bucket@, key@) is None,
            !final(self).spec_bucket_keys(bucket@).contains(key@),
    {
        proof {
            self.buckets.lemma_get_characterization(bucket@);
            crate::kvlist::lemma_find_key(self.buckets.spec_keys(), bucket@, 0);
        }
        let i = match self.buckets.index_of(bucket) {
            Some(i) => i,
            None => {
                return ;
            },
        };
        proof {
            self.buckets.lemma_index_in_range(bucket@);
        }
        let mut bi = self.buckets.replace_at(i, BucketIndex { names: Vec::new(), metas: KvList::new() });
        bi.drop_key(key);
        let _ = bi.metas.remove(key);
        let _ = self.buckets.replace_at(i, bi);
        proof {
            assert forall|j: int|
                0 <= j < self.buckets.spec_len() implies (
            #[trigger] self.buckets.spec_vals()[j]).metas.wf() by {
                if j != i {
                    assert(self.buckets.spec_vals()[j] == old(self).buckets.spec_vals()[j]);
                }
            }
            self.buckets.lemma_get_characterization(bucket@);
            assert(self.buckets.spec_get(bucket@) == Some(self.buckets.spec_vals()[i as int]));
        }
    }

    /// Forgets a bucket and everything it listed.
    pub fn purge_bucket(&mut self, bucket: &str)
        requires
            old(self).wf(),
        ensures
            final(self).wf(),
            !final(self).spec_has_bucket(bucket@),
    {
        let ghost oi = self.buckets.spec_index_of(bucket@);
        match self.buckets.remove(bucket) {
            Some(_) => {
                proof {
                    assert(oi is Some);
                    old(self).buckets.lemma_index_in_range(bucket@);
                    let i = oi.unwrap();
                    old(self).buckets.spec_vals().remove_ensures(i);
                    assert forall|j: int|
                        0 <= j < self.buckets.spec_len() implies (
                    #[trigger] self.buckets.spec_vals()[j]).metas.wf() by {
                        let pj = if j < i {
                            j
                        } else {
                            j + 1
                        };
                        assert(self.buckets.spec_vals()[j] == old(self).buckets.spec_vals()[pj]);
                    }
                }
            },
            None => {},
        }
    }

    /// Lists a bucket: an unknown bucket is `NotFound`. Every listed
    /// object carries a key of the bucket that starts with the requested
    /// prefix, listing at most `max_keys` objects (zero meaning no limit);
    /// keys whose remainder past the prefix contains the delimiter are
    /// rolled up into `common_prefixes` instead — distinct entries that
    /// start with the prefix and end with the delimiter.
    pub fn list(&self, request: &ListRequest) -> (r: Result<ListResponse, IndexError>)
        requires
            self.wf(),
        ensures
            match r {
                Ok(resp) => {
                    &&& self.spec_has_bucket(request.bucket@)
                    &&& (request.max_keys > 0 ==> resp.objects@.len() <= request.max_keys)
                    &&& forall|i: int|
                        0 <= i < resp.objects@.len() ==> self.spec_bucket_keys(
                            request.bucket@,
                        ).contains((#[trigger] resp.objects@[i]).key@)
                    &&& forall|i: int|
                        0 <= i < resp.objects@.len() ==> spec_bytes_prefix(
                            vstd::utf8::encode_utf8((#[trigger] resp.objects@[i]).key@),
                            spec_prefix_bytes(request.prefix),
                        )
                    &&& forall|i: int|
                        0 <= i < resp.common_prefixes@.len() ==> spec_bytes_prefix(
                            vstd::utf8::encode_utf8((#[trigger] resp.common_prefixes@[i])@),
                            spec_prefix_bytes(request.prefix),
                        ) && vstd::utf8::encode_utf8(resp.common_prefixes@[i]@).len() > 0 && (
                        request.delimiter matches Some(d) ==> vstd::utf8::encode_utf8(
                            resp.common_prefixes@[i]@,
                        ).last() == d)
                    &&& (request.delimiter is None ==> resp.common_prefixes@.len() == 0)
                    &&& forall|a: int, b: int|
                        0 <= a < b < resp.common_prefixes@.len() ==> (
                        #[trigger] resp.common_prefixes@[a])@ != (
                        #[trigger] resp.common_prefixes@[b])@
                },
                Err(e) => e == IndexError::NotFound && !self.spec_has_bucket(request.bucket@),
            },
    {
        proof {
            self.buckets.lemma_get_characterization(request.bucket@);
        }
        let bi = match self.buckets.get(request.bucket.as_str()) {
            Some(b) => b,
            None => {
                return Err(IndexError::NotFound);
            },
        };
        proof {
            self.buckets.lemma_index_in_range(request.bucket@);
            assert(bi.metas.wf());
        }
        let empty_prefix = String::new();
        let prefix: &String = match &request.prefix {
            Some(p) => p,
            None => &empty_prefix,
        };
        let prefix_bytes = prefix.as_str().as_bytes();
        let ghost pb = spec_prefix_bytes(request.prefix);
        proof {
            if request.prefix is None {
                assert(vstd::utf8::encode_utf8(Seq::<char>::empty()) =~= Seq::<u8>::empty());
                assert(prefix_bytes@ =~= pb);
            }
        }
        let max_keys = if request.max_keys == 0 {
            usize::MAX
        } else {
            request.max_keys
        };

        // find the position just after the continuation key, if any
        let mut start: usize = 0;
        match &request.continuation {
            Some(token) => {
                let mut j: usize = 0;
                let mut found = false;
                while j < bi.names.len() && !found
                    invariant
                        j <= bi.names@.len(),
                        found ==> j < bi.names@.len(),
                    decreases bi.names@.len() - j + (if found {
                        0int
                    } else {
                        1int
                    }),
                {
                    if str_eq(bi.names[j].as_str(), token.as_str()) {
                        found = true;
                    } else {
                        j += 1;
                    }
                }
                if found {
                    start = j + 1;
                }
            },
            None => {},
        }
        if start > bi.names.len() {
            start = bi.names.len();
        }

        let mut objects: Vec<ListObject> = Vec::new();
        let mut prefixes: Vec<String> = Vec::new();
        let mut next_token: Option<String> = None;
        let mut idx = start;
        while idx < bi.names.len()
            invariant_except_break
                objects@.len() < max_keys,
            invariant
                self.wf(),
                idx <= bi.names@.len(),
                bi.metas.wf(),
                self.buckets.spec_get(request.bucket@) == Some(*bi),
                pb == spec_prefix_bytes(request.prefix),
                prefix_bytes@ == pb,
                max_keys >= 1,
                objects@.len() <= max_keys,
                forall|i: int|
                    0 <= i < objects@.len() ==> self.spec_bucket_keys(request.bucket@).contains(
                        (#[trigger] objects@[i]).key@,
                    ),
                forall|i: int|
                    0 <= i < objects@.len() ==> spec_bytes_prefix(
                        vstd::utf8::encode_utf8((#[trigger] objects@[i]).key@),
                        pb,
                    ),
                forall|i: int|
                    0 <= i < prefixes@.len() ==> spec_bytes_prefix(
                        vstd::utf8::encode_utf8((#[trigger] prefixes@[i])@),
                        pb,
                    ) && vstd::utf8::encode_utf8(prefixes@[i]@).len() > 0 && (
                    request.delimiter matches Some(d) ==> vstd::utf8::encode_utf8(
                        prefixes@[i]@,
                    ).last() == d),
                request.delimiter is None ==> prefixes@.len() == 0,
                forall|a: int, b: int|
                    0 <= a < b < prefixes@.len() ==> (#[trigger] prefixes@[a])@ != (
                    #[trigger] prefixes@[b])@,
            ensures
                objects@.len() <= max_keys,
                forall|i: int|
                    0 <= i < objects@.len() ==> self.spec_bucket_keys(request.bucket@).contains(
                        (#[trigger] objects@[i]).key@,
                    ),
                forall|i: int|
                    0 <= i < objects@.len() ==> spec_bytes_prefix(
                        vstd::utf8::encode_utf8((#[trigger] objects@[i]).key@),
                        pb,
                    ),
                forall|i: int|
                    0 <= i < prefixes@.len() ==> spec_bytes_prefix(
                        vstd::utf8::encode_utf8((#[trigger] prefixes@[i])@),
                        pb,
                    ) && vstd::utf8::encode_utf8(prefixes@[i]@).len() > 0 && (
                    request.delimiter matches Some(d) ==> vstd::utf8::encode_utf8(
                        prefixes@[i]@,
                    ).last() == d),
                request.delimiter is None ==> prefixes@.len() == 0,
                forall|a: int, b: int|
                    0 <= a < b < prefixes@.len() ==> (#[trigger] prefixes@[a])@ != (
                    #[trigger] prefixes@[b])@,
            decreases bi.names@.len() - idx,
        {
            let key = &bi.names[idx];
            let key_bytes = key.as_str().as_bytes();
            // binds the slice length so later offset arithmetic is bounded
            let _kb_len = key_bytes.len();
            if !crate::bytes::starts_with(key_bytes, prefix_bytes) {
                idx += 1;
                continue ;
            }
            let mut rolled_up = false;
            match request.delimiter {
                Some(delimiter) => {
                    match crate::bytes::find_byte(key_bytes, prefix_bytes.len(), delimiter) {
                        Some(pos) => {
                            rolled_up = true;
                            let cp = crate::bytes::subvec(key_bytes, 0, pos + 1);
                            proof {
                                assert(cp@.take(pb.len() as int) =~= key_bytes@.take(
                                    pb.len() as int,
                                ));
                                assert(cp@.last() == delimiter);
                            }
                            match crate::bytes::utf8_to_str(cp.as_slice()) {
                                Some(s) => {
                                    let cp_str = s.to_owned();
                                    let mut seen = false;
                                    let mut pi: usize = 0;
                                    while pi < prefixes.len() && !seen
                                        invariant
                                            pi <= prefixes@.len(),
                                            !seen ==> forall|a: int|
                                                0 <= a < pi ==> (#[trigger] prefixes@[a])@
                                                    != cp_str@,
                                        decreases prefixes@.len() - pi + (if seen {
                                            0int
                                        } else {
                                            1int
                                        }),
                                    {
                                        if str_eq(prefixes[pi].as_str(), cp_str.as_str()) {
                                            seen = true;
                                        } else {
                                            pi += 1;
                                        }
                                    }
                                    if !seen {
                                        prefixes.push(cp_str);
                                    }
                                },
                                None => {
                                    // a delimiter cut mid-character: the key is
                                    // rolled up but no prefix can be recorded
                                },
                            }
                        },
                        None => {},
                    }
                },
                None => {},
            }
            if !rolled_up {
                let meta = match bi.metas.get(key.as_str()) {
                    Some(m) => *m,
                    None => ObjectMetadata { id: 0, size: 0, checksum: 0 },
                };
                proof {
                    assert(self.spec_bucket_keys(request.bucket@)[idx as int] == key@);
                    assert(self.spec_bucket_keys(request.bucket@).contains(key@));
                }
                objects.push(ListObject { key: key.clone(), size: meta.size });
                if objects.len() == max_keys {
                    if idx + 1 < bi.names.len() {
                        next_token = Some(bi.names[idx].clone());
                    }
                    idx += 1;
                    break ;
                }
            }
            idx += 1;
        }
        Ok(ListResponse { objects, next_token, common_prefixes: prefixes })
    }
}

impl BucketIndex {
    /// Inserts `key` into the listing in lexicographic position, if it is
    /// not yet listed.
    fn add_key(&mut self, key: &str)
        ensures
            final(self).metas == old(self).metas,
            final(self).names@.len() >= old(self).names@.len(),
            exists|i: int|
                0 <= i < final(self).names@.len() && (#[trigger] final(self).names@[i])@ == key@,
    {
        let mut pos: usize = 0;
        while pos < self.names.len() && bytes_lt(
            self.names[pos].as_str().as_bytes(),
            key.as_bytes(),
        )
            invariant
                pos <= self.names@.len(),
            decreases self.names@.len() - pos,
        {
            pos += 1;
        }
        if pos < self.names.len() && str_eq(self.names[pos].as_str(), key) {
            proof {
                assert((self.names@[pos as int])@ == key@);
            }
            return ;
        }
        self.names.insert(pos, key.to_owned());
        proof {
            assert((self.names@[pos as int])@ == key@);
        }
    }

    /// Drops `key` from the listing.
    fn drop_key(&mut self, key: &str)
        ensures
            final(self).metas == old(self).metas,
            forall|i: int|
                0 <= i < final(self).names@.len() ==> (#[trigger] final(self).names@[i])@ != key@,
    {
        let mut kept: Vec<String> = Vec::new();
        let mut i: usize = 0;
        while i < self.names.len()
            invariant
                i <= self.names@.len(),
                forall|j: int| 0 <= j < kept@.len() ==> (#[trigger] kept@[j])@ != key@,
            decreases self.names@.len() - i,
        {
            if !str_eq(self.names[i].as_str(), key) {
                kept.push(self.names[i].clone());
            }
            i += 1;
        }
        self.names = kept;
    }
}

} // verus!
