//! The object service: routes authenticated HTTP requests to the catalog,
//! the object store, the listing index and the multipart manager.

use vstd::prelude::*;
use vstd::string::StringSliceAdditionalSpecFns;

use crate::apikey::StaticApiKeyValidator;
use crate::auth::{authenticate_request, HeaderAuth};
use crate::bytes::{
    append_bytes, dec_digits, find_byte, parse_dec, subvec, utf8_to_str,
};
use crate::catalog::{CatalogError, InMemoryCatalog};
use crate::http::{spec_header_value, Header as HttpHeader, Method, Request, Response};
use crate::index::{InMemoryIndex, ListRequest};
use crate::keystore::InMemoryKeyStore;
use crate::log::EventLog;
use crate::multipart::{InMemoryMultipart, MultipartError, MultipartPart, MultipartUpload};
use crate::object::{InMemoryObjectStore, ObjectError};

verus! {

/// The object service's state: its stores, the name of the key header, and
/// an event log.
pub struct S3Service {
    catalog: InMemoryCatalog,
    store: InMemoryObjectStore,
    keystore: InMemoryKeyStore,
    index: InMemoryIndex,
    multipart: InMemoryMultipart,
    auth_header: String,
    events: EventLog,
}

impl S3Service {
    /// The catalog's view.
    pub closed spec fn spec_catalog(&self) -> InMemoryCatalog {
        self.catalog
    }

    /// The object store's view.
    pub closed spec fn spec_store(&self) -> InMemoryObjectStore {
        self.store
    }

    /// The keystore's view.
    pub closed spec fn spec_keystore(&self) -> InMemoryKeyStore {
        self.keystore
    }

    /// All components are well formed.
    pub closed spec fn wf(&self) -> bool {
        &&& self.catalog.wf()
        &&& self.store.wf()
        &&& self.keystore.wf()
        &&& self.index.wf()
        &&& self.multipart.wf()
        &&& self.events.wf()
    }

    /// Assembles a service; the API key travels in `x-api-key`.
    pub fn new(
        catalog: InMemoryCatalog,
        store: InMemoryObjectStore,
        keystore: InMemoryKeyStore,
        index: InMemoryIndex,
        multipart: InMemoryMultipart,
    ) -> (r: S3Service)
        requires
            catalog.wf(),
            store.wf(),
            keystore.wf(),
            index.wf(),
            multipart.wf(),
        ensures
            r.wf(),
            r.spec_catalog() == catalog,
            r.spec_store() == store,
            r.spec_keystore() == keystore,
    {
        let mut auth_header = String::new();
        auth_header.append("x-api-key");
        S3Service {
            catalog,
            store,
            keystore,
            index,
            multipart,
            auth_header,
            events: EventLog::with_capacity(64),
        }
    }

    /// Mutable access to the catalog.
    pub fn catalog_mut(&mut self) -> (r: &mut InMemoryCatalog)
        ensures
            *r == old(self).spec_catalog(),
            final(self).spec_catalog() == *final(r),
            final(self).spec_store() == old(self).spec_store(),
            final(self).spec_keystore() == old(self).spec_keystore(),
            old(self).wf() && final(r).wf() ==> final(self).wf(),
    {
        &mut self.catalog
    }

    /// Mutable access to the keystore.
    pub fn keystore_mut(&mut self) -> (r: &mut InMemoryKeyStore)
        ensures
            *r == old(self).spec_keystore(),
            final(self).spec_keystore() == *final(r),
            final(self).spec_catalog() == old(self).spec_catalog(),
            final(self).spec_store() == old(self).spec_store(),
            old(self).wf() && final(r).wf() ==> final(self).wf(),
    {
        &mut self.keystore
    }

    /// Mutable access to the listing index.
    pub fn index_mut(&mut self) -> (r: &mut InMemoryIndex)
        ensures
            final(self).spec_catalog() == old(self).spec_catalog(),
            final(self).spec_store() == old(self).spec_store(),
            final(self).spec_keystore() == old(self).spec_keystore(),
            old(self).wf() && final(r).wf() ==> final(self).wf(),
    {
        &mut self.index
    }

    /// Mutable access to the multipart manager.
    pub fn multipart_mut(&mut self) -> (r: &mut InMemoryMultipart)
        ensures
            final(self).spec_catalog() == old(self).spec_catalog(),
            final(self).spec_store() == old(self).spec_store(),
            final(self).spec_keystore() == old(self).spec_keystore(),
            old(self).wf() && final(r).wf() ==> final(self).wf(),
    {
        &mut self.multipart
    }

    /// A snapshot of the recorded events, oldest first.
    pub fn events(&self) -> (r: Vec<String>) {
        self.events.snapshot()
    }

    /// Builds a response carrying `body` with its length declared.
    pub fn response(status: u16, body: Vec<u8>) -> (r: Response)
        ensures
            r.status == status,
            r.body@ == body@,
    {
        let digits = dec_digits(body.len() as u64);
        let value = match utf8_to_str(digits.as_slice()) {
            Some(s) => s.to_owned(),
            None => String::new(),
        };
        let mut name = String::new();
        name.append("Content-Length");
        let mut headers: Vec<HttpHeader> = Vec::new();
        headers.push(HttpHeader { name, value });
        Response { status, headers, body }
    }

    /// Builds an empty-bodied response.
    pub fn empty_response(status: u16) -> (r: Response)
        ensures
            r.status == status,
            r.body@ == Seq::<u8>::empty(),
    {
        let body: Vec<u8> = Vec::new();
        proof {
            assert(body@ =~= Seq::<u8>::empty());
        }
        S3Service::response(status, body)
    }

    /// The storage key an object is filed under: `bucket/key`.
    pub fn storage_key(bucket: &str, key: &str) -> (r: String)
        ensures
            r@ == bucket@ + seq!['/'] + key@,
    {
        let mut s = bucket.to_owned();
        s.append("/");
        s.append(key);
        proof {
            reveal_strlit("/");
            assert(s@ =~= bucket@ + seq!['/'] + key@);
        }
        s
    }

    /// Whether the catalog lists the bucket.
    pub fn bucket_exists(&self, bucket: &str) -> (r: bool)
        requires
            self.wf(),
        ensures
            r == self.spec_catalog().spec_has_bucket(bucket@),
    {
        let infos = self.catalog.list_buckets();
        let mut i: usize = 0;
        let ghost names = self.catalog.spec_bucket_names();
        while i < infos.len()
            invariant
                names == self.catalog.spec_bucket_names(),
                i <= infos@.len(),
                infos@.len() == names.len(),
                forall|j: int| 0 <= j < infos@.len() ==> (#[trigger] infos@[j]).name@ == names[j],
                forall|j: int| 0 <= j < i ==> names[j] != bucket@,
            decreases infos@.len() - i,
        {
            if crate::bytes::str_eq(infos[i].name.as_str(), bucket) {
                proof {
                    assert(names[i as int] == bucket@);
                    assert(names.contains(bucket@));
                }
                return true;
            }
            i += 1;
        }
        proof {
            if names.contains(bucket@) {
                let w = choose|w: int| 0 <= w < names.len() && names[w] == bucket@;
            }
        }
        false
    }

    /// Stores an object: an empty key is refused with 400, a missing
    /// bucket with 404; success stores the bytes, files the metadata and
    /// answers 200.
    pub fn handle_put(&mut self, bucket: &str, key: &str, body: &[u8]) -> (r: Response)
        requires
            old(self).wf(),
        ensures
            final(self).wf(),
            key@.len() == 0 ==> r.status == 400,
            key@.len() > 0 && !old(self).spec_catalog().spec_has_bucket(bucket@) ==> r.status
                == 404,
            key@.len() > 0 && old(self).spec_catalog().spec_has_bucket(bucket@) ==> {
                &&& r.status == 200
                &&& final(self).spec_catalog().spec_metadata(bucket@, key@) is Some
                &&& final(self).spec_store().spec_object(bucket@ + seq!['/'] + key@) == Some(
                    body@,
                )
            },
    {
        if key.is_empty() {
            let mut msg: Vec<u8> = Vec::new();
            append_bytes(&mut msg, "MissingObjectKey".as_bytes());
            return S3Service::response(400, msg);
        }
        let storage_key = S3Service::storage_key(bucket, key);
        let meta = match self.store.put(storage_key.as_str(), body) {
            Ok(meta) => meta,
            Err(_) => {
                proof {
                    assert(storage_key@.len() > 0);
                    assert(false);
                }
                let msg: Vec<u8> = Vec::new();
                return S3Service::response(500, msg);
            },
        };
        match self.catalog.put_object(bucket, key, meta) {
            Ok(()) => {
                self.index.insert(bucket, key, meta);
                S3Service::empty_response(200)
            },
            Err(e) => {
                let _ = self.store.delete(storage_key.as_str());
                match e {
                    CatalogError::NotFound => {
                        let mut msg: Vec<u8> = Vec::new();
                        append_bytes(&mut msg, "BucketNotFound".as_bytes());
                        S3Service::response(404, msg)
                    },
                    CatalogError::InvalidName => {
                        proof {
                            assert(false);
                        }
                        S3Service::empty_response(400)
                    },
                    _ => {
                        proof {
                            assert(false);
                        }
                        S3Service::empty_response(500)
                    },
                }
            },
        }
    }

    /// Fetches an object: an unknown bucket or key answers 404; success
    /// answers 200 with the object's bytes.
    pub fn handle_get(&mut self, bucket: &str, key: &str) -> (r: Response)
        requires
            old(self).wf(),
        ensures
            final(self).wf(),
            *final(self) == *old(self),
            old(self).spec_catalog().spec_metadata(bucket@, key@) is None ==> r.status == 404,
    {
        let meta = match self.catalog.object_metadata(bucket, key) {
            Ok(meta) => meta,
            Err(_) => {
                let mut msg: Vec<u8> = Vec::new();
                append_bytes(&mut msg, "NoSuchKey".as_bytes());
                return S3Service::response(404, msg);
            },
        };
        let storage_key = S3Service::storage_key(bucket, key);
        if meta.size > usize::MAX as u64 {
            let mut msg: Vec<u8> = Vec::new();
            append_bytes(&mut msg, "StorageError".as_bytes());
            return S3Service::response(500, msg);
        }
        let mut buffer: Vec<u8> = Vec::new();
        let size = meta.size as usize;
        let mut i: usize = 0;
        while i < size
            invariant
                i <= size,
                buffer@.len() == i,
            decreases size - i,
        {
            buffer.push(0);
            i += 1;
        }
        match self.store.get(storage_key.as_str(), &mut buffer) {
            Ok(_) => S3Service::response(200, buffer),
            Err(ObjectError::NotFound) => {
                let mut msg: Vec<u8> = Vec::new();
                append_bytes(&mut msg, "NoSuchKey".as_bytes());
                S3Service::response(404, msg)
            },
            Err(_) => {
                let mut msg: Vec<u8> = Vec::new();
                append_bytes(&mut msg, "StorageError".as_bytes());
                S3Service::response(500, msg)
            },
        }
    }

    /// Deletes an object: an unknown bucket or key answers 404; success
    /// clears the catalog, the index and the store, answering 204.
    pub fn handle_delete(&mut self, bucket: &str, key: &str) -> (r: Response)
        requires
            old(self).wf(),
        ensures
            final(self).wf(),
            old(self).spec_catalog().spec_metadata(bucket@, key@) is None ==> r.status == 404,
            old(self).spec_catalog().spec_metadata(bucket@, key@) is Some ==> {
                &&& final(self).spec_catalog().spec_metadata(bucket@, key@) is None
                &&& (r.status == 204 || r.status == 404 || r.status == 500)
            },
    {
        match self.catalog.remove_object(bucket, key) {
            Ok(()) => {},
            Err(_) => {
                let mut msg: Vec<u8> = Vec::new();
                append_bytes(&mut msg, "NoSuchKey".as_bytes());
                return S3Service::response(404, msg);
            },
        }
        self.index.remove(bucket, key);
        let storage_key = S3Service::storage_key(bucket, key);
        match self.store.delete(storage_key.as_str()) {
            Ok(()) => S3Service::empty_response(204),
            Err(ObjectError::NotFound) => {
                let mut msg: Vec<u8> = Vec::new();
                append_bytes(&mut msg, "NoSuchKey".as_bytes());
                S3Service::response(404, msg)
            },
            Err(_) => {
                let mut msg: Vec<u8> = Vec::new();
                append_bytes(&mut msg, "StorageError".as_bytes());
                S3Service::response(500, msg)
            },
        }
    }

    /// Lists a bucket: an unknown bucket answers 404, else 200 with one
    /// key per line.
    pub fn handle_list(&mut self, bucket: &str, query: Option<&Vec<u8>>) -> (r: Response)
        requires
            old(self).wf(),
        ensures
            final(self).wf(),
            !old(self).spec_catalog().spec_has_bucket(bucket@) ==> r.status == 404,
    {
        if !self.bucket_exists(bucket) {
            let mut msg: Vec<u8> = Vec::new();
            append_bytes(&mut msg, "BucketNotFound".as_bytes());
            return S3Service::response(404, msg);
        }
        let empty: Vec<u8> = Vec::new();
        let params = QueryParams::parse(match query {
            Some(q) => q.as_slice(),
            None => empty.as_slice(),
        });
        let list_req = ListRequest {
            bucket: bucket.to_owned(),
            prefix: params.prefix,
            delimiter: params.delimiter,
            continuation: params.continuation_token,
            max_keys: match params.max_keys {
                Some(m) => m,
                None => 1000,
            },
        };
        match self.index.list(&list_req) {
            Ok(result) => {
                let mut body: Vec<u8> = Vec::new();
                append_bytes(&mut body, "Objects:\n".as_bytes());
                let mut i: usize = 0;
                while i < result.objects.len()
                    invariant
                        i <= result.objects@.len(),
                    decreases result.objects@.len() - i,
                {
                    append_bytes(&mut body, result.objects[i].key.as_str().as_bytes());
                    body.push(0x0A);
                    i += 1;
                }
                if result.common_prefixes.len() > 0 {
                    append_bytes(&mut body, "Prefixes:\n".as_bytes());
                    let mut p: usize = 0;
                    while p < result.common_prefixes.len()
                        invariant
                            p <= result.common_prefixes@.len(),
                        decreases result.common_prefixes@.len() - p,
                    {
                        append_bytes(&mut body, result.common_prefixes[p].as_str().as_bytes());
                        body.push(0x0A);
                        p += 1;
                    }
                }
                match &result.next_token {
                    Some(token) => {
                        append_bytes(&mut body, "NextToken:".as_bytes());
                        append_bytes(&mut body, token.as_str().as_bytes());
                    },
                    None => {},
                }
                S3Service::response(200, body)
            },
            Err(_) => {
                let mut msg: Vec<u8> = Vec::new();
                append_bytes(&mut msg, "IndexError".as_bytes());
                S3Service::response(500, msg)
            },
        }
    }

    /// Creates a bucket: 200 on success, 409 when it exists, 400 for an
    /// empty name.
    pub fn handle_create_bucket(&mut self, bucket: &str) -> (r: Response)
        requires
            old(self).wf(),
        ensures
            final(self).wf(),
            bucket@.len() == 0 ==> r.status == 400,
            bucket@.len() > 0 && old(self).spec_catalog().spec_has_bucket(bucket@) ==> r.status
                == 409,
            bucket@.len() > 0 && !old(self).spec_catalog().spec_has_bucket(bucket@) ==> r.status
                == 200 && final(self).spec_catalog().spec_has_bucket(bucket@),
    {
        match self.catalog.create_bucket(bucket) {
            Ok(()) => {
                proof {
                    let n = old(self).spec_catalog().spec_bucket_names().len() as int;
                    assert(self.spec_catalog().spec_bucket_names()[n] == bucket@);
                    assert(self.spec_catalog().spec_bucket_names().contains(bucket@));
                }
                S3Service::empty_response(200)
            },
            Err(CatalogError::AlreadyExists) => {
                let mut msg: Vec<u8> = Vec::new();
                append_bytes(&mut msg, "BucketAlreadyExists".as_bytes());
                S3Service::response(409, msg)
            },
            Err(CatalogError::InvalidName) => {
                let mut msg: Vec<u8> = Vec::new();
                append_bytes(&mut msg, "InvalidBucketName".as_bytes());
                S3Service::response(400, msg)
            },
            Err(_) => {
                proof {
                    assert(false);
                }
                S3Service::empty_response(500)
            },
        }
    }

    /// Deletes a bucket: 204 on success, 404 when it is unknown.
    pub fn handle_delete_bucket(&mut self, bucket: &str) -> (r: Response)
        requires
            old(self).wf(),
        ensures
            final(self).wf(),
            old(self).spec_catalog().spec_has_bucket(bucket@) ==> r.status == 204 && !final(self).spec_catalog().spec_has_bucket(bucket@),
            !old(self).spec_catalog().spec_has_bucket(bucket@) ==> r.status == 404,
    {
        match self.catalog.delete_bucket(bucket) {
            Ok(()) => {
                self.index.purge_bucket(bucket);
                S3Service::empty_response(204)
            },
            Err(CatalogError::NotFound) => {
                let mut msg: Vec<u8> = Vec::new();
                append_bytes(&mut msg, "NoSuchBucket".as_bytes());
                S3Service::response(404, msg)
            },
            Err(_) => {
                proof {
                    assert(false);
                }
                S3Service::empty_response(500)
            },
        }
    }

    /// Lists every bucket, one name per line.
    pub fn handle_list_buckets(&mut self) -> (r: Response)
        requires
            old(self).wf(),
        ensures
            final(self).wf(),
            *final(self) == *old(self),
            r.status == 200,
    {
        let mut body: Vec<u8> = Vec::new();
        append_bytes(&mut body, "Buckets:\n".as_bytes());
        let infos = self.catalog.list_buckets();
        let mut i: usize = 0;
        while i < infos.len()
            invariant
                i <= infos@.len(),
            decreases infos@.len() - i,
        {
            append_bytes(&mut body, infos[i].name.as_str().as_bytes());
            body.push(0x0A);
            i += 1;
        }
        S3Service::response(200, body)
    }

    /// Starts a multipart upload: 404 for an unknown bucket, else 200 with
    /// `UploadId:<id>` in the body.
    pub fn handle_initiate_multipart(&mut self, bucket: &str, key: &str) -> (r: Response)
        requires
            old(self).wf(),
        ensures
            final(self).wf(),
            !old(self).spec_catalog().spec_has_bucket(bucket@) ==> r.status == 404,
            old(self).spec_catalog().spec_has_bucket(bucket@) ==> r.status == 200,
    {
        if !self.bucket_exists(bucket) {
            let mut msg: Vec<u8> = Vec::new();
            append_bytes(&mut msg, "BucketNotFound".as_bytes());
            return S3Service::response(404, msg);
        }
        match self.multipart.initiate(bucket, key) {
            Ok(upload_id) => {
                let mut body: Vec<u8> = Vec::new();
                append_bytes(&mut body, "UploadId:".as_bytes());
                append_bytes(&mut body, upload_id.as_str().as_bytes());
                S3Service::response(200, body)
            },
            Err(_) => {
                let mut msg: Vec<u8> = Vec::new();
                append_bytes(&mut msg, "MultipartError".as_bytes());
                S3Service::response(500, msg)
            },
        }
    }

    /// Records one part of an upload: 404 for an unknown upload id, 200 on
    /// success.
    pub fn handle_upload_part(&mut self, upload_id: &str, part_number: u32, data: &[u8]) -> (r:
        Response)
        requires
            old(self).wf(),
        ensures
            final(self).wf(),
            r.status == 200 || r.status == 404 || r.status == 409,
    {
        let part = MultipartPart {
            upload_id: upload_id.to_owned(),
            part_number,
            data: subvec(data, 0, data.len()),
        };
        match self.multipart.put_part(part) {
            Ok(()) => S3Service::empty_response(200),
            Err(MultipartError::NotFound) => {
                let mut msg: Vec<u8> = Vec::new();
                append_bytes(&mut msg, "NoSuchUpload".as_bytes());
                S3Service::response(404, msg)
            },
            Err(MultipartError::InvalidState) => {
                let mut msg: Vec<u8> = Vec::new();
                append_bytes(&mut msg, "InvalidUploadState".as_bytes());
                S3Service::response(409, msg)
            },
        }
    }

    /// Finishes an upload: the combined parts are stored as the object;
    /// 404 for an unknown id, 409 for a mismatched bucket or key.
    pub fn handle_complete_multipart(&mut self, bucket: &str, key: &str, upload_id: &str) -> (r:
        Response)
        requires
            old(self).wf(),
        ensures
            final(self).wf(),
    {
        let upload = MultipartUpload {
            upload_id: upload_id.to_owned(),
            bucket: bucket.to_owned(),
            key: key.to_owned(),
        };
        match self.multipart.complete(&upload) {
            Ok(data) => self.handle_put(bucket, key, data.as_slice()),
            Err(MultipartError::NotFound) => {
                let mut msg: Vec<u8> = Vec::new();
                append_bytes(&mut msg, "NoSuchUpload".as_bytes());
                S3Service::response(404, msg)
            },
            Err(MultipartError::InvalidState) => {
                let mut msg: Vec<u8> = Vec::new();
                append_bytes(&mut msg, "InvalidUploadState".as_bytes());
                S3Service::response(409, msg)
            },
        }
    }

    /// Discards an upload: 204 on success, 404 for an unknown id, 409 for
    /// a mismatched bucket or key.
    pub fn handle_abort_multipart(&mut self, bucket: &str, key: &str, upload_id: &str) -> (r:
        Response)
        requires
            old(self).wf(),
        ensures
            final(self).wf(),
            r.status == 204 || r.status == 404 || r.status == 409,
    {
        let upload = MultipartUpload {
            upload_id: upload_id.to_owned(),
            bucket: bucket.to_owned(),
            key: key.to_owned(),
        };
        match self.multipart.abort(&upload) {
            Ok(()) => S3Service::empty_response(204),
            Err(MultipartError::NotFound) => {
                let mut msg: Vec<u8> = Vec::new();
                append_bytes(&mut msg, "NoSuchUpload".as_bytes());
                S3Service::response(404, msg)
            },
            Err(MultipartError::InvalidState) => {
                let mut msg: Vec<u8> = Vec::new();
                append_bytes(&mut msg, "InvalidUploadState".as_bytes());
                S3Service::response(409, msg)
            },
        }
    }

    /// Maps an authentication error to its 403 response.
    pub fn auth_error_response(err: crate::apikey::AuthError) -> (r: Response)
        ensures
            r.status == 403,
    {
        let mut msg: Vec<u8> = Vec::new();
        match err {
            crate::apikey::AuthError::Missing => {
                append_bytes(&mut msg, "MissingApiKey".as_bytes());
            },
            _ => {
                append_bytes(&mut msg, "InvalidApiKey".as_bytes());
            },
        }
        S3Service::response(403, msg)
    }

    /// Dumps the event log, one entry per line.
    pub fn handle_logs(&self) -> (r: Response)
        ensures
            r.status == 200,
    {
        let snapshot = self.events.snapshot();
        let mut body: Vec<u8> = Vec::new();
        let mut i: usize = 0;
        while i < snapshot.len()
            invariant
                i <= snapshot@.len(),
            decreases snapshot@.len() - i,
        {
            append_bytes(&mut body, snapshot[i].as_str().as_bytes());
            body.push(0x0A);
            i += 1;
        }
        S3Service::response(200, body)
    }

    /// Routes one request: the API key is checked first — a missing or
    /// unknown key answers 403 — then the path and query select the
    /// operation.
    pub fn handle(&mut self, request: &Request) -> (r: Response)
        requires
            old(self).wf(),
        ensures
            final(self).wf(),
            spec_header_value(
                request.spec_headers(),
                vstd::utf8::encode_utf8(old(self).spec_auth_header()),
                0,
            ) is None ==> r.status == 403 && *final(self) == *old(self),
    {
        let validator = StaticApiKeyValidator::new(&self.keystore);
        match authenticate_request(request, &validator, &HeaderAuth, self.auth_header.as_str()) {
            Ok(()) => {},
            Err(err) => {
                return S3Service::auth_error_response(err);
            },
        }

        let path_raw = request.path.as_str().as_bytes();
        let mut start: usize = 0;
        while start < path_raw.len() && path_raw[start] == 0x2F
            invariant
                start <= path_raw@.len(),
            decreases path_raw@.len() - start,
        {
            start += 1;
        }
        let trimmed = subvec(path_raw, start, path_raw.len());
        let (path, query): (Vec<u8>, Option<Vec<u8>>) = match find_byte(trimmed.as_slice(), 0, 0x3F) {
            Some(q) => (
                subvec(trimmed.as_slice(), 0, q),
                Some(subvec(trimmed.as_slice(), q + 1, trimmed.len())),
            ),
            None => (subvec(trimmed.as_slice(), 0, trimmed.len()), None),
        };

        if crate::bytes::bytes_eq(path.as_slice(), "_logs".as_bytes()) {
            return match request.method {
                Method::Get => self.handle_logs(),
                _ => {
                    let mut msg: Vec<u8> = Vec::new();
                    append_bytes(&mut msg, "MethodNotAllowed".as_bytes());
                    S3Service::response(405, msg)
                },
            };
        }

        if path.len() == 0 {
            return match request.method {
                Method::Get => self.handle_list_buckets(),
                _ => {
                    let mut msg: Vec<u8> = Vec::new();
                    append_bytes(&mut msg, "MethodNotAllowed".as_bytes());
                    S3Service::response(405, msg)
                },
            };
        }

        let (bucket_bytes, key_bytes): (Vec<u8>, Vec<u8>) = match find_byte(
            path.as_slice(),
            0,
            0x2F,
        ) {
            Some(s) => (
                subvec(path.as_slice(), 0, s),
                subvec(path.as_slice(), s + 1, path.len()),
            ),
            None => (subvec(path.as_slice(), 0, path.len()), Vec::new()),
        };
        if bucket_bytes.len() == 0 {
            let mut msg: Vec<u8> = Vec::new();
            append_bytes(&mut msg, "MissingBucket".as_bytes());
            return S3Service::response(400, msg);
        }
        let bucket = match utf8_to_str(bucket_bytes.as_slice()) {
            Some(s) => s.to_owned(),
            None => {
                let mut msg: Vec<u8> = Vec::new();
                append_bytes(&mut msg, "MissingBucket".as_bytes());
                return S3Service::response(400, msg);
            },
        };
        let key = match utf8_to_str(key_bytes.as_slice()) {
            Some(s) => s.to_owned(),
            None => String::new(),
        };
        let empty_query: Vec<u8> = Vec::new();
        let params = QueryParams::parse(match &query {
            Some(q) => q.as_slice(),
            None => empty_query.as_slice(),
        });

        if params.uploads && matches!(request.method, Method::Post) {
            return self.handle_initiate_multipart(bucket.as_str(), key.as_str());
        }

        match &params.upload_id {
            Some(upload_id) => {
                return match request.method {
                    Method::Put => {
                        match params.part_number {
                            Some(part_number) => self.handle_upload_part(
                                upload_id.as_str(),
                                part_number,
                                request.body.as_slice(),
                            ),
                            None => {
                                let mut msg: Vec<u8> = Vec::new();
                                append_bytes(&mut msg, "MissingPartNumber".as_bytes());
                                S3Service::response(400, msg)
                            },
                        }
                    },
                    Method::Post => self.handle_complete_multipart(
                        bucket.as_str(),
                        key.as_str(),
                        upload_id.as_str(),
                    ),
                    Method::Delete => self.handle_abort_multipart(
                        bucket.as_str(),
                        key.as_str(),
                        upload_id.as_str(),
                    ),
                    _ => {
                        let mut msg: Vec<u8> = Vec::new();
                        append_bytes(&mut msg, "MethodNotAllowed".as_bytes());
                        S3Service::response(405, msg)
                    },
                };
            },
            None => {},
        }

        match request.method {
            Method::Put => {
                if key.as_str().is_empty() {
                    self.handle_create_bucket(bucket.as_str())
                } else {
                    self.handle_put(bucket.as_str(), key.as_str(), request.body.as_slice())
                }
            },
            Method::Get => {
                if key.as_str().is_empty() {
                    self.handle_list(bucket.as_str(), query.as_ref())
                } else {
                    self.handle_get(bucket.as_str(), key.as_str())
                }
            },
            Method::Delete => {
                if key.as_str().is_empty() {
                    self.handle_delete_bucket(bucket.as_str())
                } else {
                    self.handle_delete(bucket.as_str(), key.as_str())
                }
            },
            _ => {
                let mut msg: Vec<u8> = Vec::new();
                append_bytes(&mut msg, "MethodNotAllowed".as_bytes());
                S3Service::response(405, msg)
            },
        }
    }

    /// The configured name of the API key header.
    pub closed spec fn spec_auth_header(&self) -> Seq<char> {
        self.auth_header@
    }
}

struct QueryParams {
    prefix: Option<String>,
    delimiter: Option<u8>,
    continuation_token: Option<String>,
    max_keys: Option<usize>,
    uploads: bool,
    upload_id: Option<String>,
    part_number: Option<u32>,
}

impl QueryParams {
    /// Parses `name=value` pairs separated by `&`; unknown names are
    /// ignored.
    fn parse(query: &[u8]) -> (r: QueryParams) {
        let mut params = QueryParams {
            prefix: None,
            delimiter: None,
            continuation_token: None,
            max_keys: None,
            uploads: false,
            upload_id: None,
            part_number: None,
        };
        let pairs = crate::bytes::split_on(query, 0x26);
        let mut i: usize = 0;
        while i < pairs.len()
            invariant
                i <= pairs@.len(),
            decreases pairs@.len() - i,
        {
            let pair = &pairs[i];
            if pair.len() == 0 {
                i += 1;
                continue ;
            }
            let (name, value): (Vec<u8>, Vec<u8>) = match find_byte(pair.as_slice(), 0, 0x3D) {
                Some(eq) => (
                    subvec(pair.as_slice(), 0, eq),
                    subvec(pair.as_slice(), eq + 1, pair.len()),
                ),
                None => (subvec(pair.as_slice(), 0, pair.len()), Vec::new()),
            };
            if crate::bytes::bytes_eq(name.as_slice(), "prefix".as_bytes()) {
                // strip percent signs, as the service's simple unescaping
                let mut cleaned: Vec<u8> = Vec::new();
                let mut j: usize = 0;
                while j < value.len()
                    invariant
                        j <= value@.len(),
                    decreases value@.len() - j,
                {
                    let b = value[j];
                    if b != 0x25 {
                        cleaned.push(b);
                    }
                    j += 1;
                }
                params.prefix = match utf8_to_str(cleaned.as_slice()) {
                    Some(s) => Some(s.to_owned()),
                    None => None,
                };
            } else if crate::bytes::bytes_eq(name.as_slice(), "delimiter".as_bytes()) {
                params.delimiter = if value.len() > 0 {
                    Some(value[0])
                } else {
                    None
                };
            } else if crate::bytes::bytes_eq(name.as_slice(), "continuation-token".as_bytes()) {
                params.continuation_token = match utf8_to_str(value.as_slice()) {
                    Some(s) => Some(s.to_owned()),
                    None => None,
                };
            } else if crate::bytes::bytes_eq(name.as_slice(), "max-keys".as_bytes()) {
                params.max_keys = match parse_dec(value.as_slice()) {
                    Some(v) => {
                        if v <= usize::MAX as u64 {
                            Some(v as usize)
                        } else {
                            None
                        }
                    },
                    None => None,
                };
            } else if crate::bytes::bytes_eq(name.as_slice(), "uploads".as_bytes()) {
                params.uploads = true;
            } else if crate::bytes::bytes_eq(name.as_slice(), "uploadId".as_bytes()) {
                params.upload_id = match utf8_to_str(value.as_slice()) {
                    Some(s) => Some(s.to_owned()),
                    None => None,
                };
            } else if crate::bytes::bytes_eq(name.as_slice(), "partNumber".as_bytes()) {
                params.part_number = match parse_dec(value.as_slice()) {
                    Some(v) => {
                        if v <= u32::MAX as u64 {
                            Some(v as u32)
                        } else {
                            None
                        }
                    },
                    None => None,
                };
            }
            i += 1;
        }
        params
    }
}

} // verus!
