//! Block-device interface and an in-memory device for testing higher
//! layers without hardware.

use vstd::prelude::*;

verus! {

/// Minimal interface representing a block device.
pub trait BlockDevice {
    fn read(&mut self, lba: u64, buffer: &mut Vec<u8>) -> Result<(), BlockError>;

    fn write(&mut self, lba: u64, buffer: &[u8]) -> Result<(), BlockError>;

    fn flush(&mut self) -> Result<(), BlockError>;
}

/// What a block operation can fail with.
#[derive(Debug, Clone, Copy, PartialEq, Eq, Structural)]
pub enum BlockError {
    OutOfRange,
    Io,
    Unsupported,
}

/// Stub builder that future drivers can implement.
pub struct BlockDeviceBuilder;

impl BlockDeviceBuilder {
    /// Creates the builder.
    pub fn new() -> BlockDeviceBuilder {
        BlockDeviceBuilder
    }
}

/// In-memory block device over an owned byte buffer.
pub struct MemoryBlockDevice {
    block_size: usize,
    storage: Vec<u8>,
}

impl MemoryBlockDevice {
    /// The device's bytes.
    pub closed spec fn spec_storage(&self) -> Seq<u8> {
        self.storage@
    }

    /// The device's block size.
    pub closed spec fn spec_block_size(&self) -> int {
        self.block_size as int
    }

    /// The block size is positive and divides the storage length.
    pub closed spec fn wf(&self) -> bool {
        &&& self.block_size > 0
        &&& self.storage@.len() % (self.block_size as nat) == 0
    }

    /// Wraps a byte buffer as a device; the block size must be positive
    /// and divide the buffer length.
    pub fn new(block_size: usize, storage: Vec<u8>) -> (r: Result<MemoryBlockDevice, BlockError>)
        ensures
            match r {
                Ok(d) => {
                    &&& block_size > 0
                    &&& storage@.len() % (block_size as nat) == 0
                    &&& d.wf()
                    &&& d.spec_storage() == storage@
                    &&& d.spec_block_size() == block_size
                },
                Err(e) => {
                    &&& e == BlockError::Unsupported
                    &&& (block_size == 0 || storage@.len() % (block_size as nat) != 0)
                },
            },
    {
        if block_size == 0 || storage.len() % block_size != 0 {
            return Err(BlockError::Unsupported);
        }
        Ok(MemoryBlockDevice { block_size, storage })
    }

    /// Byte offset of logical block `lba` when a transfer of `len` bytes
    /// from it stays inside the storage.
    fn bounds_check(&self, lba: u64, len: usize) -> (r: Result<usize, BlockError>)
        requires
            self.wf(),
        ensures
            match r {
                Ok(offset) => {
                    &&& offset == lba * self.spec_block_size()
                    &&& offset + len <= self.spec_storage().len()
                },
                Err(e) => {
                    &&& e == BlockError::OutOfRange
                    &&& lba * self.spec_block_size() + len > self.spec_storage().len()
                },
            },
    {
        let n = self.storage.len();
        let bs = self.block_size as u64;
        let offset = match lba.checked_mul(bs) {
            Some(o) => o,
            None => {
                proof {
                    assert(lba * self.spec_block_size() > u64::MAX ==> lba * self.spec_block_size()
                        + len > self.spec_storage().len());
                }
                return Err(BlockError::OutOfRange);
            },
        };
        if offset > usize::MAX as u64 {
            return Err(BlockError::OutOfRange);
        }
        let offset = offset as usize;
        let end = match offset.checked_add(len) {
            Some(e) => e,
            None => {
                return Err(BlockError::OutOfRange);
            },
        };
        if end > self.storage.len() {
            return Err(BlockError::OutOfRange);
        }
        Ok(offset)
    }

    /// Reads `buffer.len()` bytes starting at block `lba`; a transfer past
    /// the end of the storage is refused. An empty buffer always succeeds.
    pub fn read(&mut self, lba: u64, buffer: &mut Vec<u8>) -> (r: Result<(), BlockError>)
        requires
            old(self).wf(),
        ensures
            final(self).wf(),
            *final(self) == *old(self),
            match r {
                Ok(()) => {
                    &&& final(buffer)@.len() == old(buffer)@.len()
                    &&& (old(buffer)@.len() > 0 ==> final(buffer)@ =~= old(self).spec_storage()
                        .subrange(
                        lba * old(self).spec_block_size(),
                        lba * old(self).spec_block_size() + old(buffer)@.len(),
                    ))
                    &&& (old(buffer)@.len() == 0 ==> final(buffer)@ == old(buffer)@)
                },
                Err(e) => {
                    &&& e == BlockError::OutOfRange
                    &&& final(buffer)@ == old(buffer)@
                    &&& lba * old(self).spec_block_size() + old(buffer)@.len() > old(self).spec_storage().len()
                },
            },
    {
        if buffer.len() == 0 {
            return Ok(());
        }
        let offset = match self.bounds_check(lba, buffer.len()) {
            Ok(o) => o,
            Err(e) => {
                return Err(e);
            },
        };
        let n = self.storage.len();
        let mut i: usize = 0;
        while i < buffer.len()
            invariant
                self.wf(),
                *self == *old(self),
                n == self.spec_storage().len(),
                offset + buffer@.len() <= n,
                i <= buffer@.len(),
                buffer@.len() == old(buffer)@.len(),
                forall|j: int| 0 <= j < i ==> buffer@[j] == self.spec_storage()[offset + j],
            decreases buffer@.len() - i,
        {
            let b = self.storage[offset + i];
            buffer.set(i, b);
            i += 1;
        }
        Ok(())
    }

    /// Writes `buffer` starting at block `lba`; a transfer past the end of
    /// the storage is refused. An empty buffer always succeeds.
    pub fn write(&mut self, lba: u64, buffer: &[u8]) -> (r: Result<(), BlockError>)
        requires
            old(self).wf(),
        ensures
            final(self).wf(),
            final(self).spec_block_size() == old(self).spec_block_size(),
            final(self).spec_storage().len() == old(self).spec_storage().len(),
            match r {
                Ok(()) => {
                    &&& buffer@.len() > 0 ==> forall|j: int|
                        0 <= j < final(self).spec_storage().len()
                            ==> final(self).spec_storage()[j] == (if lba * old(self).spec_block_size() <= j < lba * old(self).spec_block_size()
                            + buffer@.len() {
                            buffer@[j - lba * old(self).spec_block_size()]
                        } else {
                            old(self).spec_storage()[j]
                        })
                    &&& (buffer@.len() == 0 ==> *final(self) == *old(self))
                },
                Err(e) => {
                    &&& e == BlockError::OutOfRange
                    &&& *final(self) == *old(self)
                    &&& lba * old(self).spec_block_size() + buffer@.len() > old(self).spec_storage().len()
                },
            },
    {
        if buffer.len() == 0 {
            return Ok(());
        }
        let offset = match self.bounds_check(lba, buffer.len()) {
            Ok(o) => o,
            Err(e) => {
                return Err(e);
            },
        };
        let ghost base = offset as int;
        let n = self.storage.len();
        let mut i: usize = 0;
        while i < buffer.len()
            invariant
                self.wf(),
                n == self.spec_storage().len(),
                base == offset as int,
                self.spec_block_size() == old(self).spec_block_size(),
                self.spec_storage().len() == old(self).spec_storage().len(),
                offset + buffer@.len() <= self.spec_storage().len(),
                i <= buffer@.len(),
                forall|j: int|
                    0 <= j < self.spec_storage().len() ==> #[trigger] self.spec_storage()[j] == (
                    if base <= j < base + i {
                        buffer@[j - base]
                    } else {
                        old(self).spec_storage()[j]
                    }),
            decreases buffer@.len() - i,
        {
            let b = buffer[i];
            let ghost prior = self.spec_storage();
            self.storage.set(offset + i, b);
            i += 1;
        }
        Ok(())
    }

    /// Flushes the device; an in-memory device has nothing to do.
    pub fn flush(&mut self) -> (r: Result<(), BlockError>)
        ensures
            *final(self) == *old(self),
            r is Ok,
    {
        Ok(())
    }
}

} // verus!
