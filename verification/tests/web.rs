//! HTTP parsing, authentication and the object service.

use rustcore::apikey::AuthError;
use rustcore::auth::{authenticate_request, HeaderAuth};
use rustcore::apikey::StaticApiKeyValidator;
use rustcore::catalog::InMemoryCatalog;
use rustcore::error::S3Error;
use rustcore::handlers::S3Service;
use rustcore::http::{build_response, parse_request, Header, Method, Request, Response};
use rustcore::index::InMemoryIndex;
use rustcore::keystore::{ApiKeyEntry, InMemoryKeyStore};
use rustcore::log::EventLog;
use rustcore::multipart::{InMemoryMultipart, MultipartPart, MultipartUpload};
use rustcore::object::InMemoryObjectStore;

#[test]
fn parse_basic_request() {
    let raw = b"GET /bucket/object HTTP/1.1\r\nHost: example.com\r\n\r\n";
    let request = parse_request(raw).unwrap();
    assert!(matches!(request.method, Method::Get));
    assert_eq!(request.path, "/bucket/object");
    assert_eq!(request.headers.len(), 1);
}

#[test]
fn build_basic_response() {
    let response = Response {
        status: 200,
        headers: vec![Header { name: "Content-Length".to_string(), value: "0".to_string() }],
        body: vec![],
    };
    let serialized = build_response(&response);
    let text = core::str::from_utf8(&serialized).unwrap();
    assert!(text.starts_with("HTTP/1.1 200 OK"));
}

#[test]
fn response_status_lines() {
    for (status, line) in [
        (403u16, "HTTP/1.1 403 Forbidden"),
        (404, "HTTP/1.1 404 Not Found"),
        (500, "HTTP/1.1 500 Internal Server Error"),
        (204, "HTTP/1.1 204"),
    ] {
        let serialized = build_response(&Response { status, headers: vec![], body: vec![] });
        let text = core::str::from_utf8(&serialized).unwrap();
        assert!(text.starts_with(line), "{text}");
    }
}

#[test]
fn header_lookup_ignores_case() {
    let request = Request {
        method: Method::Get,
        path: "/".to_string(),
        headers: vec![Header { name: "X-Api-Key".to_string(), value: "abc".to_string() }],
        body: vec![],
    };
    assert_eq!(request.header("x-api-key"), Some("abc"));
    assert_eq!(request.header("missing"), None);
}

fn make_request(method: Method, path: &str, key: Option<&str>, body: &[u8]) -> Request {
    let mut headers = Vec::new();
    if let Some(value) = key {
        headers.push(Header { name: "x-api-key".to_string(), value: value.to_string() });
    }
    Request { method, path: path.to_string(), headers, body: body.to_vec() }
}

#[test]
fn authenticates_with_valid_key() {
    let mut store = InMemoryKeyStore::new();
    store
        .insert(
            ApiKeyEntry {
                key_id: "key-1".to_string(),
                hash: vec![0; 32],
                bucket: "default".to_string(),
                permissions: 1,
            },
        )
        .unwrap();
    let validator = StaticApiKeyValidator::new(&store);
    let request = make_request(Method::Get, "/", Some("key-1"), &[]);
    assert!(authenticate_request(&request, &validator, &HeaderAuth, "x-api-key").is_ok());
}

#[test]
fn missing_key_is_error() {
    let store = InMemoryKeyStore::new();
    let validator = StaticApiKeyValidator::new(&store);
    let request = make_request(Method::Get, "/", None, &[]);
    assert!(matches!(
        authenticate_request(&request, &validator, &HeaderAuth, "x-api-key"),
        Err(AuthError::Missing)
    ));
}

fn new_service() -> S3Service {
    let mut service = S3Service::new(
        InMemoryCatalog::new(),
        InMemoryObjectStore::new(),
        InMemoryKeyStore::new(),
        InMemoryIndex::new(),
        InMemoryMultipart::new(),
    );
    service.catalog_mut().create_bucket("photos").unwrap();
    service
        .keystore_mut()
        .insert(
            ApiKeyEntry {
                key_id: "abc123".to_string(),
                hash: vec![0; 32],
                bucket: "photos".to_string(),
                permissions: 1,
            },
        )
        .unwrap();
    service
}

#[test]
fn multipart_flow() {
    let mut service = new_service();
    let init_resp = service.handle(&make_request(
        Method::Post,
        "/photos/album.zip?uploads",
        Some("abc123"),
        &[],
    ));
    assert_eq!(init_resp.status, 200);
    let upload_id = core::str::from_utf8(&init_resp.body)
        .unwrap()
        .trim_start_matches("UploadId:")
        .trim()
        .to_string();

    let part_resp = service.handle(&make_request(
        Method::Put,
        &format!("/photos/album.zip?partNumber=1&uploadId={}", upload_id),
        Some("abc123"),
        b"chunk",
    ));
    assert_eq!(part_resp.status, 200);

    let complete_resp = service.handle(&make_request(
        Method::Post,
        &format!("/photos/album.zip?uploadId={}", upload_id),
        Some("abc123"),
        &[],
    ));
    assert_eq!(complete_resp.status, 200);

    let get_resp = service.handle(&make_request(
        Method::Get,
        "/photos/album.zip",
        Some("abc123"),
        &[],
    ));
    assert_eq!(get_resp.status, 200);
    assert_eq!(get_resp.body, b"chunk");
}

#[test]
fn service_requires_api_key() {
    let mut service = new_service();
    let resp = service.handle(&make_request(Method::Get, "/photos/x", None, &[]));
    assert_eq!(resp.status, 403);
    assert_eq!(resp.body, b"MissingApiKey");
    let resp = service.handle(&make_request(Method::Get, "/photos/x", Some("nope"), &[]));
    assert_eq!(resp.status, 403);
    assert_eq!(resp.body, b"InvalidApiKey");
}

#[test]
fn put_get_delete_cycle() {
    let mut service = new_service();
    let put = service.handle(&make_request(
        Method::Put,
        "/photos/pic.jpg",
        Some("abc123"),
        b"pixels",
    ));
    assert_eq!(put.status, 200);
    let get = service.handle(&make_request(Method::Get, "/photos/pic.jpg", Some("abc123"), &[]));
    assert_eq!(get.status, 200);
    assert_eq!(get.body, b"pixels");
    let del = service.handle(&make_request(
        Method::Delete,
        "/photos/pic.jpg",
        Some("abc123"),
        &[],
    ));
    assert_eq!(del.status, 204);
    let gone = service.handle(&make_request(Method::Get, "/photos/pic.jpg", Some("abc123"), &[]));
    assert_eq!(gone.status, 404);
}

#[test]
fn bucket_routes() {
    let mut service = new_service();
    let list = service.handle(&make_request(Method::Get, "/", Some("abc123"), &[]));
    assert_eq!(list.status, 200);
    assert!(core::str::from_utf8(&list.body).unwrap().contains("photos"));
    let created = service.handle(&make_request(Method::Put, "/docs", Some("abc123"), &[]));
    assert_eq!(created.status, 200);
    let dup = service.handle(&make_request(Method::Put, "/docs", Some("abc123"), &[]));
    assert_eq!(dup.status, 409);
    let missing = service.handle(&make_request(Method::Get, "/nowhere/", Some("abc123"), &[]));
    assert_eq!(missing.status, 404);
    let deleted = service.handle(&make_request(Method::Delete, "/docs", Some("abc123"), &[]));
    assert_eq!(deleted.status, 204);
}

#[test]
fn multipart_abort_via_manager() {
    let mut manager = InMemoryMultipart::new();
    let upload_id = manager.initiate("docs", "report.bin").unwrap();
    manager
        .put_part(MultipartPart { upload_id: upload_id.clone(), part_number: 1, data: b"data".to_vec() })
        .unwrap();
    assert!(manager
        .abort(&MultipartUpload {
            upload_id: upload_id.clone(),
            bucket: "docs".to_string(),
            key: "report.bin".to_string(),
        })
        .is_ok());
    let _ = upload_id;
}

#[test]
fn initiate_put_complete() {
    let mut manager = InMemoryMultipart::new();
    let upload_id = manager.initiate("photos", "album.zip").unwrap();
    manager
        .put_part(MultipartPart { upload_id: upload_id.clone(), part_number: 1, data: b"part1".to_vec() })
        .unwrap();
    manager
        .put_part(MultipartPart { upload_id: upload_id.clone(), part_number: 2, data: b"part2".to_vec() })
        .unwrap();
    let combined = manager
        .complete(&MultipartUpload {
            upload_id: upload_id.clone(),
            bucket: "photos".to_string(),
            key: "album.zip".to_string(),
        })
        .unwrap();
    assert_eq!(combined, b"part1part2");
}

#[test]
fn abort_discard_upload() {
    let mut manager = InMemoryMultipart::new();
    let upload_id = manager.initiate("docs", "report.bin").unwrap();
    manager
        .put_part(MultipartPart { upload_id: upload_id.clone(), part_number: 1, data: b"data".to_vec() })
        .unwrap();
    assert!(manager
        .abort(&MultipartUpload {
            upload_id: upload_id.clone(),
            bucket: "docs".to_string(),
            key: "report.bin".to_string(),
        })
        .is_ok());
    assert!(matches!(
        manager.complete(&MultipartUpload {
            upload_id: upload_id.clone(),
            bucket: "docs".to_string(),
            key: "report.bin".to_string(),
        }),
        Err(rustcore::multipart::MultipartError::NotFound)
    ));
}

#[test]
fn parts_combine_in_number_order() {
    let mut manager = InMemoryMultipart::new();
    let id = manager.initiate("b", "k").unwrap();
    manager
        .put_part(MultipartPart { upload_id: id.clone(), part_number: 2, data: b"two".to_vec() })
        .unwrap();
    manager
        .put_part(MultipartPart { upload_id: id.clone(), part_number: 1, data: b"one".to_vec() })
        .unwrap();
    let combined = manager
        .complete(&MultipartUpload {
            upload_id: id.clone(),
            bucket: "b".to_string(),
            key: "k".to_string(),
        })
        .unwrap();
    assert_eq!(combined, b"onetwo");
}

#[test]
fn event_log_drops_oldest() {
    let mut log = EventLog::with_capacity(2);
    log.record("one");
    log.record("two");
    log.record("three");
    let entries = log.snapshot();
    assert_eq!(entries, vec!["two".to_string(), "three".to_string()]);
}

#[test]
fn error_status_codes() {
    assert_eq!(S3Error::AccessDenied.status_code(), 403);
    assert_eq!(S3Error::NoSuchBucket("b").status_code(), 404);
    assert_eq!(S3Error::NoSuchKey("k").status_code(), 404);
    assert_eq!(S3Error::Internal.status_code(), 500);
}

#[test]
fn same_part_number_replaces_data() {
    let mut manager = InMemoryMultipart::new();
    let id = manager.initiate("b", "k").unwrap();
    manager
        .put_part(MultipartPart { upload_id: id.clone(), part_number: 1, data: b"old".to_vec() })
        .unwrap();
    manager
        .put_part(MultipartPart { upload_id: id.clone(), part_number: 1, data: b"new".to_vec() })
        .unwrap();
    let combined = manager
        .complete(&MultipartUpload {
            upload_id: id.clone(),
            bucket: "b".to_string(),
            key: "k".to_string(),
        })
        .unwrap();
    assert_eq!(combined, b"new");
}
