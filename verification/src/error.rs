//! Service-level errors and their HTTP status codes.

use vstd::prelude::*;

verus! {

/// What the object service can report to a client.
pub enum S3Error<'a> {
    AccessDenied,
    NoSuchBucket(&'a str),
    NoSuchKey(&'a str),
    Internal,
}

impl<'a> S3Error<'a> {
    /// The HTTP status code the error maps to.
    pub fn status_code(&self) -> (r: u16)
        ensures
            r == (match self {
                S3Error::AccessDenied => 403u16,
                S3Error::NoSuchBucket(_) => 404u16,
                S3Error::NoSuchKey(_) => 404u16,
                S3Error::Internal => 500u16,
            }),
    {
        match self {
            S3Error::AccessDenied => 403,
            S3Error::NoSuchBucket(_) => 404,
            S3Error::NoSuchKey(_) => 404,
            S3Error::Internal => 500,
        }
    }
}

} // verus!
