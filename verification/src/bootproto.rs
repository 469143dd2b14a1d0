//! Loader-to-kernel handoff structures shared between the kernel and any
//! stage-0 loader. The loader gathers the machine description while firmware
//! services are still available and hands the kernel one record describing
//! the memory map, the staged boot filesystem and the kernel image digest.

use vstd::prelude::*;

verus! {

/// Version of the [`BootInfo`] layout; the kernel refuses records whose
/// version differs.
pub const BOOTINFO_VERSION: u16 = 1;

/// Describes the execution environment prepared by the boot loader.
///
/// The kernel borrows the record read-only for the life of the process; all
/// fields are plain data, so a consumer never reads through a raw pointer.
pub struct BootInfo {
    /// Format version for compatibility checks.
    pub version: u16,
    /// Reserved for future flags (must be zero for now).
    pub flags: u16,
    /// Physical address of the loader's stack top when control transferred.
    pub stack_top: u64,
    /// The bootloader-provided physical memory map.
    pub memory_map: Vec<MemoryRegion>,
    /// ACPI RSDP physical address when available, zero otherwise.
    pub rsdp: u64,
    /// Location of the boot filesystem payload.
    pub bootfs: MemoryRange,
    /// SHA-256 digest of the kernel image (32 bytes).
    pub kernel_digest: Sha256Digest,
}

impl BootInfo {
    /// Returns `true` when the structure is considered compatible with the
    /// current kernel expectations.
    pub fn is_compatible(&self) -> (r: bool)
        ensures
            r == (self.version == BOOTINFO_VERSION),
    {
        self.version == BOOTINFO_VERSION
    }
}

/// A base + element-count pair describing an array laid out in physical
/// memory. The kernel treats it as untrusted: a zero base or length means
/// the range carries no elements.
#[derive(Debug, Clone, Copy, PartialEq, Eq, Structural)]
pub struct PointerRange {
    pub base: u64,
    pub len: u64,
}

impl PointerRange {
    /// Constructs a range that describes no elements.
    pub fn empty() -> (r: PointerRange)
        ensures
            r.base == 0,
            r.len == 0,
    {
        PointerRange { base: 0, len: 0 }
    }

    /// Returns true if no elements are described.
    pub fn is_empty(&self) -> (r: bool)
        ensures
            r == (self.len == 0),
    {
        self.len == 0
    }
}

/// Describes a physical extent in bytes.
#[derive(Debug, Clone, Copy, PartialEq, Eq, Structural)]
pub struct MemoryRange {
    pub base: u64,
    pub length: u64,
}

impl MemoryRange {
    /// Constructs an empty range.
    pub fn empty() -> (r: MemoryRange)
        ensures
            r.base == 0,
            r.length == 0,
    {
        MemoryRange { base: 0, length: 0 }
    }

    /// Returns true if this range contains no bytes.
    pub fn is_empty(&self) -> (r: bool)
        ensures
            r == (self.length == 0),
    {
        self.length == 0
    }
}

/// Entry in the physical memory map provided by firmware.
#[derive(Debug, Clone, Copy, PartialEq, Eq, Structural)]
pub struct MemoryRegion {
    pub base: u64,
    pub length: u64,
    pub kind: MemoryRegionKind,
}

/// Memory classifications understood by the kernel during early boot.
#[derive(Debug, Clone, Copy, PartialEq, Eq, Structural)]
pub enum MemoryRegionKind {
    UsableRam,
    Reserved,
    AcpiReclaimable,
    AcpiNvs,
    Mmio,
}

/// SHA-256 digest used by the loader to attest the kernel image; always 32
/// bytes long.
pub type Sha256Digest = Vec<u8>;

} // verus!
