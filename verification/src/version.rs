//! Version-tracking interface; drivers and stores may implement it later.

use vstd::prelude::*;

use crate::object::{ObjectError, ObjectId};

verus! {

/// Placeholder for version-tracking primitives.
pub trait VersionStore {
    fn record(&mut self, object: ObjectId) -> Result<(), VersionError>;

    fn purge(&mut self, object: ObjectId) -> Result<(), VersionError>;
}

/// What a version operation can fail with.
#[derive(Debug, Clone, Copy, PartialEq, Eq, Structural)]
pub enum VersionError {
    Object(ObjectError),
    Unsupported,
}

} // verus!
