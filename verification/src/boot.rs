//! Bootloader handoff storage: the kernel records the loader-provided
//! [`BootInfo`] once during initialization and reads it for the life of
//! the process.

use vstd::prelude::*;

use crate::bootproto::{BootInfo, MemoryRange};

verus! {

/// Holds the handoff record once the loader publishes it.
pub struct BootStore {
    info: Option<BootInfo>,
}

impl BootStore {
    /// The stored record, if one was published.
    pub closed spec fn spec_info(&self) -> Option<BootInfo> {
        self.info
    }

    /// Creates an empty store: no record published yet.
    pub fn new() -> (r: BootStore)
        ensures
            r.spec_info() is None,
    {
        BootStore { info: None }
    }

    /// Records the handoff structure passed in by the loader, if any; a
    /// missing record leaves the store as it was.
    pub fn init(&mut self, boot_info: Option<BootInfo>)
        ensures
            match boot_info {
                Some(info) => final(self).spec_info() == Some(info),
                None => final(self).spec_info() == old(self).spec_info(),
            },
    {
        if let Some(info) = boot_info {
            self.info = Some(info);
        }
    }

    /// Returns the loader-provided record, when available.
    pub fn boot_info(&self) -> (r: Option<&BootInfo>)
        ensures
            match r {
                Some(info) => self.spec_info() == Some(*info),
                None => self.spec_info() is None,
            },
    {
        self.info.as_ref()
    }

    /// Returns the staged boot filesystem extent when the loader provided
    /// a non-empty one.
    pub fn bootfs_range(&self) -> (r: Option<MemoryRange>)
        ensures
            match r {
                Some(range) => {
                    &&& self.spec_info() is Some
                    &&& range == self.spec_info().unwrap().bootfs
                    &&& range.length != 0
                },
                None => self.spec_info() is None || self.spec_info().unwrap().bootfs.length == 0,
            },
    {
        match &self.info {
            Some(info) => {
                if info.bootfs.length == 0 {
                    None
                } else {
                    Some(info.bootfs)
                }
            },
            None => None,
        }
    }

    /// Returns the kernel image digest calculated by the loader.
    pub fn kernel_digest(&self) -> (r: Option<Vec<u8>>)
        ensures
            match r {
                Some(d) => self.spec_info() is Some && d@ == self.spec_info().unwrap().kernel_digest@,
                None => self.spec_info() is None,
            },
    {
        match &self.info {
            Some(info) => Some(crate::bytes::subvec(info.kernel_digest.as_slice(), 0, info.kernel_digest.len())),
            None => None,
        }
    }
}

} // verus!
