//! Request authentication: the API key travels in a header and is checked
//! against the keystore.

use vstd::prelude::*;
use vstd::string::StringSliceAdditionalSpecFns;

use crate::apikey::{AuthError, StaticApiKeyValidator};
use crate::http::{spec_header_value, Request};
use crate::keystore::KeyStoreError;

verus! {

/// The API key as presented in a request header.
pub struct ApiKeyHeader {
    pub value: String,
}

/// Authentication layer: turns a presented header into a verdict.
pub struct HeaderAuth;

impl HeaderAuth {
    /// Checks a presented key: a missing header is `Missing`; otherwise
    /// the validator's verdict stands.
    pub fn authenticate(
        &self,
        validator: &StaticApiKeyValidator,
        header: Option<ApiKeyHeader>,
    ) -> (r: Result<(), AuthError>)
        requires
            validator.spec_store().wf(),
        ensures
            header is None ==> r == Err::<(), AuthError>(AuthError::Missing),
            header matches Some(h) ==> match r {
                Ok(()) => validator.spec_store().spec_entry(h.value@) is Some,
                Err(e) => e == AuthError::Store(KeyStoreError::NotFound) && validator.spec_store()
                    .spec_entry(h.value@) is None,
            },
    {
        let header = match header {
            Some(h) => h,
            None => {
                return Err(AuthError::Missing);
            },
        };
        match validator.validate(header.value.as_str()) {
            Ok(_entry) => Ok(()),
            Err(e) => Err(e),
        }
    }
}

/// Authenticates a request: the key is read from the named header and
/// checked against the keystore; a missing header is `Missing`, an unknown
/// key surfaces the store's error.
pub fn authenticate_request(
    request: &Request,
    validator: &StaticApiKeyValidator,
    layer: &HeaderAuth,
    header_name: &str,
) -> (r: Result<(), AuthError>)
    requires
        validator.spec_store().wf(),
    ensures
        spec_header_value(request.spec_headers(), header_name.spec_bytes(), 0) is None ==> r
            == Err::<(), AuthError>(AuthError::Missing),
        spec_header_value(request.spec_headers(), header_name.spec_bytes(), 0) matches Some(v)
            ==> match r {
            Ok(()) => validator.spec_store().spec_entry(v) is Some,
            Err(e) => e == AuthError::Store(KeyStoreError::NotFound) && validator.spec_store()
                .spec_entry(v) is None,
        },
{
    let header = match request.header(header_name) {
        Some(value) => Some(ApiKeyHeader { value: value.to_owned() }),
        None => None,
    };
    layer.authenticate(validator, header)
}

} // verus!
