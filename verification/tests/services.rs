//! Catalog, index, journal, keystore, API keys and object storage.

use rustcore::apikey::{AuthError, StaticApiKeyValidator};
use rustcore::catalog::InMemoryCatalog;
use rustcore::index::{InMemoryIndex, ListRequest};
use rustcore::journal::{InMemoryJournal, JournalEntry, JournalError, Operation};
use rustcore::keystore::{ApiKeyEntry, InMemoryKeyStore, KeyStoreError};
use rustcore::object::{InMemoryObjectStore, ObjectError, ObjectMetadata};

#[test]
fn create_and_list_bucket() {
    let mut catalog = InMemoryCatalog::new();
    catalog.create_bucket("photos").unwrap();

    let buckets: Vec<String> = catalog.list_buckets().into_iter().map(|info| info.name).collect();
    assert_eq!(buckets, vec!["photos".to_string()]);
}

#[test]
fn put_and_fetch_object() {
    let mut catalog = InMemoryCatalog::new();
    catalog.create_bucket("docs").unwrap();
    let meta = ObjectMetadata { id: 7, size: 128, checksum: 0 };
    catalog.put_object("docs", "file.txt", meta).unwrap();

    let stored = catalog.object_metadata("docs", "file.txt").unwrap();
    assert_eq!(stored.size, 128);
}

#[test]
fn bucket_lifecycle_errors() {
    let mut catalog = InMemoryCatalog::new();
    assert!(catalog.create_bucket("").is_err());
    catalog.create_bucket("a").unwrap();
    assert!(catalog.create_bucket("a").is_err());
    assert!(catalog.delete_bucket("b").is_err());
    assert!(catalog.delete_bucket("a").is_ok());
    assert!(catalog.object_metadata("a", "x").is_err());
}

#[test]
fn prefix_and_delimiter() {
    let mut index = InMemoryIndex::new();
    index.insert("photos", "2023/holiday/img1.jpg", ObjectMetadata { id: 1, size: 100, checksum: 0 });
    index.insert("photos", "2023/work/img2.jpg", ObjectMetadata { id: 2, size: 200, checksum: 0 });

    let response = index
        .list(
            &ListRequest {
                bucket: "photos".to_string(),
                prefix: Some("2023/".to_string()),
                delimiter: Some(b'/'),
                continuation: None,
                max_keys: 100,
            },
        )
        .unwrap();

    assert!(response.objects.len() <= 1);
    assert_eq!(response.common_prefixes.len(), 2);
}

#[test]
fn list_unknown_bucket_fails() {
    let index = InMemoryIndex::new();
    let result = index.list(
        &ListRequest {
            bucket: "missing".to_string(),
            prefix: None,
            delimiter: None,
            continuation: None,
            max_keys: 0,
        },
    );
    assert!(result.is_err());
}

#[test]
fn append_and_replay() {
    let mut journal = InMemoryJournal::new();
    journal
        .append(
            JournalEntry {
                bucket: "docs".to_string(),
                key: Some("file.txt".to_string()),
                operation: Operation::PutObject,
            },
        )
        .unwrap();
    journal
        .append(
            JournalEntry {
                bucket: "docs".to_string(),
                key: Some("file.txt".to_string()),
                operation: Operation::DeleteObject,
            },
        )
        .unwrap();

    let ops: Vec<Operation> = journal.replay().into_iter().map(|entry| entry.operation).collect();
    assert_eq!(ops.len(), 2);
    assert_eq!(ops[0], Operation::PutObject);
}

#[test]
fn reject_invalid_entries() {
    let mut journal = InMemoryJournal::new();
    assert!(matches!(
        journal.append(JournalEntry {
            bucket: "".to_string(),
            key: None,
            operation: Operation::CreateBucket,
        }),
        Err(JournalError::InvalidEntry)
    ));
}

#[test]
fn journal_requires_object_keys() {
    let mut journal = InMemoryJournal::new();
    assert!(matches!(
        journal.append(JournalEntry {
            bucket: "docs".to_string(),
            key: None,
            operation: Operation::PutObject,
        }),
        Err(JournalError::InvalidEntry)
    ));
    assert_eq!(journal.len(), 0);
}

#[test]
fn insert_and_lookup() {
    let mut store = InMemoryKeyStore::new();
    let entry = ApiKeyEntry {
        key_id: "test".to_string(),
        hash: vec![1; 32],
        bucket: "photos".to_string(),
        permissions: 0xFF,
    };
    store.insert(entry).unwrap();
    let fetched = store.lookup("test").unwrap();
    assert_eq!(fetched.bucket, "photos");
    assert_eq!(fetched.permissions, 0xFF);
}

#[test]
fn duplicate_insert_fails() {
    let mut store = InMemoryKeyStore::new();
    let entry = ApiKeyEntry {
        key_id: "dup".to_string(),
        hash: vec![0; 32],
        bucket: "bucket".to_string(),
        permissions: 1,
    };
    store.insert(entry).unwrap();
    let again = ApiKeyEntry {
        key_id: "dup".to_string(),
        hash: vec![0; 32],
        bucket: "bucket".to_string(),
        permissions: 1,
    };
    assert_eq!(store.insert(again), Err(KeyStoreError::Storage));
}

#[test]
fn lookup_missing_key() {
    let store = InMemoryKeyStore::new();
    assert!(matches!(store.lookup("missing"), Err(KeyStoreError::NotFound)));
}

#[test]
fn validates_existing_key() {
    let mut store = InMemoryKeyStore::new();
    store
        .insert(
            ApiKeyEntry {
                key_id: "key1".to_string(),
                hash: vec![0xAB; 32],
                bucket: "photos".to_string(),
                permissions: 0x1,
            },
        )
        .unwrap();
    let validator = StaticApiKeyValidator::new(&store);
    let entry = validator.validate("key1").unwrap();
    assert_eq!(entry.bucket, "photos");
}

#[test]
fn missing_key_returns_error() {
    let store = InMemoryKeyStore::new();
    let validator = StaticApiKeyValidator::new(&store);
    assert!(matches!(
        validator.validate("missing"),
        Err(AuthError::Store(KeyStoreError::NotFound))
    ));
}

#[test]
fn object_store_roundtrip() {
    let mut store = InMemoryObjectStore::new();
    assert!(matches!(store.put("", b"x"), Err(ObjectError::InvalidKey)));
    let meta = store.put("docs/file", b"hello").unwrap();
    assert_eq!(meta.size, 5);
    assert_eq!(meta.id, 1);
    let mut buf = vec![0u8; 5];
    let fetched = store.get("docs/file", &mut buf).unwrap();
    assert_eq!(fetched.size, 5);
    assert_eq!(&buf[..], b"hello");
    let mut small = vec![0u8; 2];
    assert!(store.get("docs/file", &mut small).is_err());
    assert!(store.delete("docs/file").is_ok());
    assert!(matches!(store.delete("docs/file"), Err(ObjectError::NotFound)));
}
