//! API-key validation against a keystore.

use vstd::prelude::*;

use crate::keystore::{ApiKeyEntry, InMemoryKeyStore, KeyStoreError};

verus! {

/// Validator interface: checks a presented key.
pub trait ApiKeyValidator {
    fn validate(&self, key: &str) -> Result<ApiKeyEntry, AuthError>;
}

/// What validation can fail with.
#[derive(Debug, Clone, Copy, PartialEq, Eq, Structural)]
pub enum AuthError {
    Missing,
    Invalid,
    Store(KeyStoreError),
}

/// Validator backed by a keystore.
pub struct StaticApiKeyValidator<'a> {
    store: &'a InMemoryKeyStore,
}

impl<'a> StaticApiKeyValidator<'a> {
    /// The keystore consulted.
    pub closed spec fn spec_store(&self) -> InMemoryKeyStore {
        *self.store
    }

    /// Wraps a keystore.
    pub fn new(store: &'a InMemoryKeyStore) -> (r: StaticApiKeyValidator<'a>)
        ensures
            r.spec_store() == *store,
    {
        StaticApiKeyValidator { store }
    }

    /// Validates a presented key id against the store: a stored id yields
    /// its entry, an unknown one `Store(NotFound)`.
    pub fn validate(&self, key: &str) -> (r: Result<ApiKeyEntry, AuthError>)
        requires
            self.spec_store().wf(),
        ensures
            match r {
                Ok(e) => self.spec_store().spec_entry(key@) == Some(
                    (e.hash@, e.bucket@, e.permissions),
                ),
                Err(e) => e == AuthError::Store(KeyStoreError::NotFound) && self.spec_store()
                    .spec_entry(key@) is None,
            },
    {
        match self.store.lookup(key) {
            Ok(entry) => Ok(entry),
            Err(e) => Err(AuthError::Store(e)),
        }
    }
}

} // verus!
