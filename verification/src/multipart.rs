//! Multipart uploads: parts collected per upload id, combined in part
//! number order on completion.

use vstd::prelude::*;
use vstd::pervasive::VecAdditionalExecFns;

use crate::bytes::{append_bytes, dec_digits, utf8_to_str};
use crate::kvlist::KvList;

verus! {

/// A completed or aborted upload's identity.
pub struct MultipartUpload {
    pub upload_id: String,
    pub bucket: String,
    pub key: String,
}

/// One uploaded part.
pub struct MultipartPart {
    pub upload_id: String,
    pub part_number: u32,
    pub data: Vec<u8>,
}

/// Multipart manager interface.
pub trait MultipartManager {
    fn initiate(&mut self, bucket: &str, key: &str) -> Result<String, MultipartError>;

    fn put_part(&mut self, part: MultipartPart) -> Result<(), MultipartError>;

    fn complete(&mut self, request: &MultipartUpload) -> Result<Vec<u8>, MultipartError>;

    fn abort(&mut self, request: &MultipartUpload) -> Result<(), MultipartError>;
}

/// What a multipart operation can fail with.
#[derive(Debug, Clone, Copy, PartialEq, Eq, Structural)]
pub enum MultipartError {
    NotFound,
    InvalidState,
}

struct UploadState {
    bucket: String,
    key: String,
    part_numbers: Vec<u32>,
    part_data: Vec<Vec<u8>>,
}

/// The bytes of the parts `s`, in stored order, concatenated.
pub open spec fn spec_combined(parts: Seq<Seq<u8>>) -> Seq<u8>
    decreases parts.len(),
{
    if parts.len() == 0 {
        Seq::empty()
    } else {
        parts.first() + spec_combined(parts.drop_first())
    }
}

/// The position a part number lands at among stored numbers: the first
/// index holding a number at least as large, scanning from `i`.
pub open spec fn spec_insert_pos(nums: Seq<u32>, number: u32, i: int) -> int
    decreases nums.len() - i,
{
    if i < 0 || i >= nums.len() {
        nums.len() as int
    } else if nums[i] >= number {
        i
    } else {
        spec_insert_pos(nums, number, i + 1)
    }
}

/// The stored parts after recording one: a part with the same number is
/// replaced in place, a new number is inserted at its ascending position.
pub open spec fn spec_store_part(
    nums: Seq<u32>,
    datas: Seq<Seq<u8>>,
    number: u32,
    data: Seq<u8>,
) -> (Seq<u32>, Seq<Seq<u8>>) {
    let p = spec_insert_pos(nums, number, 0);
    if p < nums.len() && nums[p] == number {
        (nums, datas.update(p, data))
    } else {
        (nums.insert(p, number), datas.insert(p, data))
    }
}

/// In-memory multipart manager: uploads keyed by upload id, each holding
/// its parts sorted by part number.
pub struct InMemoryMultipart {
    uploads: KvList<UploadState>,
}

impl InMemoryMultipart {
    /// The upload stored under an id: its bucket, key, and parts — numbers
    /// and bytes, in ascending part-number order.
    pub closed spec fn spec_upload(&self, id: Seq<char>) -> Option<
        (Seq<char>, Seq<char>, Seq<u32>, Seq<Seq<u8>>),
    > {
        match self.uploads.spec_get(id) {
            Some(u) => Some(
                (
                    u.bucket@,
                    u.key@,
                    u.part_numbers@,
                    Seq::new(u.part_data@.len(), |i: int| u.part_data@[i]@),
                ),
            ),
            None => None,
        }
    }

    /// Upload ids are unique; each upload's part numbers are strictly
    /// increasing and paired with data.
    pub closed spec fn wf(&self) -> bool {
        &&& self.uploads.wf()
        &&& forall|i: int|
            0 <= i < self.uploads.spec_len() ==> (#[trigger] self.uploads.spec_vals()[i]).wf()
    }

    /// Creates an empty manager.
    pub fn new() -> (r: InMemoryMultipart)
        ensures
            r.wf(),
            forall|id: Seq<char>| r.spec_upload(id) is None,
    {
        let r = InMemoryMultipart { uploads: KvList::new() };
        proof {
            assert forall|id: Seq<char>| r.spec_upload(id) is None by {
                crate::kvlist::lemma_find_key(r.uploads.spec_keys(), id, 0);
            }
        }
        r
    }

    /// Starts an upload for `bucket`/`key`: stores a fresh empty upload
    /// under the returned id and hands the id back.
    pub fn initiate(&mut self, bucket: &str, key: &str) -> (r: Result<String, MultipartError>)
        requires
            old(self).wf(),
        ensures
            final(self).wf(),
            match r {
                Ok(id) => {
                    &&& final(self).spec_upload(id@) == Some(
                        (bucket@, key@, Seq::<u32>::empty(), Seq::<Seq<u8>>::empty()),
                    )
                    &&& forall|id2: Seq<char>|
                        id2 != id@ ==> #[trigger] final(self).spec_upload(id2) == old(
                            self,
                        ).spec_upload(id2)
                },
                Err(_) => false,
            },
    {
        let count = self.uploads.len() as u64;
        let serial = dec_digits(if count < u64::MAX {
            count + 1
        } else {
            count
        });
        let serial_str = match utf8_to_str(serial.as_slice()) {
            Some(s) => s,
            None => {
                proof {
                    lemma_dec_render_ascii(if count < u64::MAX {
                        count as int + 1
                    } else {
                        count as int
                    });
                }
                ""
            },
        };
        let mut upload_id = bucket.to_owned();
        upload_id.append(":");
        upload_id.append(key);
        upload_id.append(":");
        upload_id.append(serial_str);
        let state = UploadState {
            bucket: bucket.to_owned(),
            key: key.to_owned(),
            part_numbers: Vec::new(),
            part_data: Vec::new(),
        };
        let _ = self.uploads.insert(upload_id.as_str(), state);
        proof {
            assert(Seq::new(0nat, |i: int| Seq::<u8>::empty()) =~= Seq::<Seq<u8>>::empty());
            assert forall|i: int|
                0 <= i < self.uploads.spec_len() implies (
            #[trigger] self.uploads.spec_vals()[i]).wf() by {
                if old(self).uploads.spec_index_of(upload_id@) is Some {
                    let p = old(self).uploads.spec_index_of(upload_id@).unwrap();
                    old(self).uploads.lemma_index_in_range(upload_id@);
                    if i != p {
                        assert(self.uploads.spec_vals()[i] == old(self).uploads.spec_vals()[i]);
                    }
                } else {
                    if i < old(self).uploads.spec_len() {
                        assert(self.uploads.spec_vals()[i] == old(self).uploads.spec_vals()[i]);
                    }
                }
            }
        }
        Ok(upload_id)
    }

    /// Records a part under its upload id, replacing a part with the same
    /// number; an unknown id is `NotFound`.
    pub fn put_part(&mut self, part: MultipartPart) -> (r: Result<(), MultipartError>)
        requires
            old(self).wf(),
        ensures
            final(self).wf(),
            old(self).spec_upload(part.upload_id@) is None ==> r == Err::<(), MultipartError>(
                MultipartError::NotFound,
            ) && *final(self) == *old(self),
            old(self).spec_upload(part.upload_id@) is Some ==> {
                &&& r is Ok
                &&& ({
                    let pre = old(self).spec_upload(part.upload_id@).unwrap();
                    let stored = spec_store_part(pre.2, pre.3, part.part_number, part.data@);
                    final(self).spec_upload(part.upload_id@) == Some(
                        (pre.0, pre.1, stored.0, stored.1),
                    )
                })
                &&& forall|id2: Seq<char>|
                    id2 != part.upload_id@ ==> #[trigger] final(self).spec_upload(id2) == old(
                        self,
                    ).spec_upload(id2)
            },
    {
        proof {
            old(self).uploads.lemma_get_characterization(part.upload_id@);
        }
        let i = match self.uploads.index_of(part.upload_id.as_str()) {
            Some(i) => i,
            None => {
                return Err(MultipartError::NotFound);
            },
        };
        proof {
            self.uploads.lemma_index_in_range(part.upload_id@);
        }
        let mut state = self.uploads.replace_at(
            i,
            UploadState {
                bucket: String::new(),
                key: String::new(),
                part_numbers: Vec::new(),
                part_data: Vec::new(),
            },
        );
        state.store_part(part.part_number, part.data);
        let _ = self.uploads.replace_at(i, state);
        proof {
            assert forall|j: int|
                0 <= j < self.uploads.spec_len() implies (
            #[trigger] self.uploads.spec_vals()[j]).wf() by {
                if j != i {
                    assert(self.uploads.spec_vals()[j] == old(self).uploads.spec_vals()[j]);
                }
            }
            lemma_upload_frame(*old(self), *self, part.upload_id@, i as int);
        }
        Ok(())
    }

    /// Finishes an upload: the upload leaves the manager; when its bucket
    /// and key match the request, the parts' bytes are returned combined in
    /// ascending part-number order, else the result is `InvalidState`. An
    /// unknown id is `NotFound`.
    pub fn complete(&mut self, request: &MultipartUpload) -> (r: Result<Vec<u8>, MultipartError>)
        requires
            old(self).wf(),
        ensures
            final(self).wf(),
            final(self).spec_upload(request.upload_id@) is None,
            forall|id2: Seq<char>|
                id2 != request.upload_id@ ==> #[trigger] final(self).spec_upload(id2) == old(
                    self,
                ).spec_upload(id2),
            match r {
                Ok(data) => {
                    &&& old(self).spec_upload(request.upload_id@) is Some
                    &&& {
                        let pre = old(self).spec_upload(request.upload_id@).unwrap();
                        &&& pre.0 == request.bucket@
                        &&& pre.1 == request.key@
                        &&& data@ == spec_combined(pre.3)
                    }
                },
                Err(MultipartError::NotFound) => old(self).spec_upload(request.upload_id@) is None,
                Err(MultipartError::InvalidState) => {
                    &&& old(self).spec_upload(request.upload_id@) is Some
                    &&& {
                        let pre = old(self).spec_upload(request.upload_id@).unwrap();
                        pre.0 != request.bucket@ || pre.1 != request.key@
                    }
                },
            },
    {
        proof {
            old(self).uploads.lemma_get_characterization(request.upload_id@);
        }
        let state = match self.uploads.remove(request.upload_id.as_str()) {
            Some(s) => s,
            None => {
                proof {
                    lemma_remove_keeps_wf(*old(self), *self, request.upload_id@);
                }
                return Err(MultipartError::NotFound);
            },
        };
        proof {
            lemma_remove_keeps_wf(*old(self), *self, request.upload_id@);
        }
        if !crate::bytes::str_eq(state.bucket.as_str(), request.bucket.as_str()) || !crate::bytes::str_eq(
            state.key.as_str(),
            request.key.as_str(),
        ) {
            return Err(MultipartError::InvalidState);
        }
        let mut combined: Vec<u8> = Vec::new();
        let ghost all = Seq::new(state.part_data@.len(), |i: int| state.part_data@[i]@);
        proof {
            assert(all.skip(0) =~= all);
        }
        let mut i: usize = 0;
        while i < state.part_data.len()
            invariant
                i <= state.part_data@.len(),
                all == Seq::new(state.part_data@.len(), |k: int| state.part_data@[k]@),
                spec_combined(all) =~= combined@ + spec_combined(all.skip(i as int)),
            decreases state.part_data@.len() - i,
        {
            append_bytes(&mut combined, state.part_data[i].as_slice());
            proof {
                assert(all.skip(i as int).first() == all[i as int]);
                assert(all.skip(i as int).drop_first() =~= all.skip(i + 1));
            }
            i += 1;
        }
        proof {
            assert(all.skip(state.part_data@.len() as int) =~= Seq::<Seq<u8>>::empty());
            assert(combined@ =~= spec_combined(all));
        }
        Ok(combined)
    }

    /// Discards an upload: the upload leaves the manager; a mismatched
    /// bucket or key is reported as `InvalidState`, an unknown id as
    /// `NotFound`.
    pub fn abort(&mut self, request: &MultipartUpload) -> (r: Result<(), MultipartError>)
        requires
            old(self).wf(),
        ensures
            final(self).wf(),
            final(self).spec_upload(request.upload_id@) is None,
            forall|id2: Seq<char>|
                id2 != request.upload_id@ ==> #[trigger] final(self).spec_upload(id2) == old(
                    self,
                ).spec_upload(id2),
            match r {
                Ok(()) => {
                    &&& old(self).spec_upload(request.upload_id@) is Some
                    &&& {
                        let pre = old(self).spec_upload(request.upload_id@).unwrap();
                        pre.0 == request.bucket@ && pre.1 == request.key@
                    }
                },
                Err(MultipartError::NotFound) => old(self).spec_upload(request.upload_id@) is None,
                Err(MultipartError::InvalidState) => {
                    &&& old(self).spec_upload(request.upload_id@) is Some
                    &&& {
                        let pre = old(self).spec_upload(request.upload_id@).unwrap();
                        pre.0 != request.bucket@ || pre.1 != request.key@
                    }
                },
            },
    {
        let state = match self.uploads.remove(request.upload_id.as_str()) {
            Some(s) => s,
            None => {
                proof {
                    lemma_remove_keeps_wf(*old(self), *self, request.upload_id@);
                }
                return Err(MultipartError::NotFound);
            },
        };
        proof {
            lemma_remove_keeps_wf(*old(self), *self, request.upload_id@);
        }
        if !crate::bytes::str_eq(state.bucket.as_str(), request.bucket.as_str()) || !crate::bytes::str_eq(
            state.key.as_str(),
            request.key.as_str(),
        ) {
            return Err(MultipartError::InvalidState);
        }
        Ok(())
    }
}

impl UploadState {
    /// Part numbers are strictly increasing and paired with data.
    spec fn wf(&self) -> bool {
        &&& self.part_numbers@.len() == self.part_data@.len()
        &&& forall|i: int, j: int|
            0 <= i < j < self.part_numbers@.len() ==> self.part_numbers@[i] < self.part_numbers@[j]
    }

    /// Stores a part in ascending part-number position, replacing any part
    /// with the same number, per [`spec_store_part`].
    fn store_part(&mut self, number: u32, data: Vec<u8>)
        requires
            old(self).wf(),
        ensures
            final(self).wf(),
            final(self).bucket == old(self).bucket,
            final(self).key == old(self).key,
            ({
                let stored = spec_store_part(
                    old(self).part_numbers@,
                    Seq::new(old(self).part_data@.len(), |i: int| old(self).part_data@[i]@),
                    number,
                    data@,
                );
                final(self).part_numbers@ == stored.0 && Seq::new(
                    final(self).part_data@.len(),
                    |i: int| final(self).part_data@[i]@,
                ) =~= stored.1
            }),
    {
        let ghost nums = self.part_numbers@;
        let ghost datas = Seq::new(self.part_data@.len(), |i: int| self.part_data@[i]@);
        let mut pos: usize = 0;
        while pos < self.part_numbers.len() && self.part_numbers[pos] < number
            invariant
                self.wf(),
                *self == *old(self),
                nums == self.part_numbers@,
                pos <= nums.len(),
                spec_insert_pos(nums, number, 0) == spec_insert_pos(nums, number, pos as int),
                forall|j: int| 0 <= j < pos ==> nums[j] < number,
            decreases nums.len() - pos,
        {
            pos += 1;
        }
        proof {
            assert(spec_insert_pos(nums, number, 0) == pos);
        }
        if pos < self.part_numbers.len() && self.part_numbers[pos] == number {
            let mut d = data;
            self.part_data.set_and_swap(pos, &mut d);
            proof {
                assert(self.part_numbers@[pos as int] == number);
                assert(Seq::new(self.part_data@.len(), |i: int| self.part_data@[i]@)
                    =~= datas.update(pos as int, data@));
            }
            return ;
        }
        let ghost prior_nums = self.part_numbers@;
        self.part_numbers.insert(pos, number);
        self.part_data.insert(pos, data);
        proof {
            assert(self.part_numbers@[pos as int] == number);
            assert forall|a: int, b: int|
                0 <= a < b < self.part_numbers@.len() implies self.part_numbers@[a]
                < self.part_numbers@[b] by {
                let pa = if a < pos {
                    a
                } else {
                    a - 1
                };
                let pb = if b < pos {
                    b
                } else {
                    b - 1
                };
                if a != pos && b != pos {
                    assert(prior_nums[pa] < prior_nums[pb]);
                }
            }
            assert(Seq::new(self.part_data@.len(), |i: int| self.part_data@[i]@) =~= datas.insert(
                pos as int,
                data@,
            ));
        }
    }
}

proof fn lemma_upload_frame(pre: InMemoryMultipart, post: InMemoryMultipart, id: Seq<char>, i: int)
    requires
        pre.uploads.wf(),
        post.uploads.wf(),
        0 <= i < pre.uploads.spec_len(),
        pre.uploads.spec_keys()[i] == id,
        post.uploads.spec_keys() == pre.uploads.spec_keys(),
        post.uploads.spec_vals().len() == pre.uploads.spec_vals().len(),
        forall|j: int|
            0 <= j < pre.uploads.spec_vals().len() && j != i ==> post.uploads.spec_vals()[j]
                == pre.uploads.spec_vals()[j],
    ensures
        forall|id2: Seq<char>|
            id2 != id ==> #[trigger] post.spec_upload(id2) == pre.spec_upload(id2),
        post.uploads.spec_get(id) == Some(post.uploads.spec_vals()[i]),
{
    pre.uploads.lemma_get_characterization(id);
    post.uploads.lemma_get_characterization(id);
    assert forall|id2: Seq<char>| id2 != id implies #[trigger] post.spec_upload(id2)
        == pre.spec_upload(id2) by {
        crate::kvlist::lemma_find_key(pre.uploads.spec_keys(), id2, 0);
        assert(post.uploads.spec_index_of(id2) == pre.uploads.spec_index_of(id2));
        if pre.uploads.spec_index_of(id2) is Some {
            let p = pre.uploads.spec_index_of(id2).unwrap();
            assert(pre.uploads.spec_keys()[p] == id2);
            assert(p != i);
        }
    }
}

proof fn lemma_remove_keeps_wf(pre: InMemoryMultipart, post: InMemoryMultipart, id: Seq<char>)
    requires
        pre.wf(),
        post.uploads.wf(),
        match pre.uploads.spec_index_of(id) {
            Some(i) => post.uploads.spec_keys() == pre.uploads.spec_keys().remove(i)
                && post.uploads.spec_vals() == pre.uploads.spec_vals().remove(i),
            None => post == pre,
        },
    ensures
        post.wf(),
{
    if pre.uploads.spec_index_of(id) is Some {
        let i = pre.uploads.spec_index_of(id).unwrap();
        pre.uploads.lemma_index_in_range(id);
        pre.uploads.spec_vals().remove_ensures(i);
        assert forall|j: int|
            0 <= j < post.uploads.spec_len() implies (#[trigger] post.uploads.spec_vals()[j]).wf() by {
            let pj = if j < i {
                j
            } else {
                j + 1
            };
            assert(post.uploads.spec_vals()[j] == pre.uploads.spec_vals()[pj]);
        }
    }
}

proof fn lemma_dec_render_ascii(n: int)
    requires
        n >= 0,
    ensures
        vstd::utf8::valid_utf8(crate::bytes::spec_dec_render(n)),
{
    lemma_dec_ascii(n);
    let s = crate::bytes::spec_dec_render(n);
    assert(vstd::utf8::partial_valid_utf8(s, 0)) by {
        assert(s.subrange(0, 0) =~= Seq::<u8>::empty());
        assert(vstd::utf8::valid_utf8(Seq::<u8>::empty()));
    }
    assert forall|i: int|
        0 <= 0 <= i < s.len() <= s.len() implies #[trigger] vstd::utf8::is_leading_byte_width_1(
        s[i],
    ) by {}
    vstd::utf8::partial_valid_utf8_extend_ascii_block(s, 0, s.len() as int);
    assert(s.subrange(0, s.len() as int) =~= s);
}

proof fn lemma_dec_ascii(n: int)
    ensures
        forall|i: int|
            0 <= i < crate::bytes::spec_dec_render(n).len()
                ==> 0x30 <= #[trigger] crate::bytes::spec_dec_render(n)[i] <= 0x39,
        forall|i: int|
            0 <= i < crate::bytes::spec_dec(n).len() ==> 0x30 <= #[trigger] crate::bytes::spec_dec(
                n,
            )[i] <= 0x39,
    decreases (if n > 0 {
        n
    } else {
        0
    }),
{
    if n > 0 {
        lemma_dec_ascii(n / 10);
        let d = crate::bytes::spec_dec(n);
        assert forall|i: int| 0 <= i < d.len() implies 0x30 <= #[trigger] d[i] <= 0x39 by {
            if i < d.len() - 1 {
                assert(d[i] == crate::bytes::spec_dec(n / 10)[i]);
            } else {
                assert(d[i] == (0x30 + n % 10) as u8);
            }
        }
    }
}

} // verus!
