//! Loader-side computations: classifying the firmware memory map, sizing
//! page allocations, and assembling the handoff record with the kernel
//! image's digest.

use vstd::prelude::*;

use sha2::Digest;

use crate::bootproto::{BootInfo, MemoryRange, MemoryRegion, MemoryRegionKind, BOOTINFO_VERSION};
use crate::memory::FRAME_SIZE_BYTES;

verus! {

/// The digest SHA-256 assigns to a byte string; the function of the bytes
/// alone, as the hash is deterministic.
pub uninterp spec fn sha256_of(data: Seq<u8>) -> Seq<u8>;

/// Relies on `sha2::Sha256::digest`: the 32-byte SHA-256 digest of the
/// input, a deterministic function of the bytes alone.
#[verifier::external_body]
pub fn sha256_digest(data: &[u8]) -> (r: Vec<u8>)
    ensures
        r@ == sha256_of(data@),
        r@.len() == 32,
{
    sha2::Sha256::digest(data).to_vec()
}

/// Firmware memory type number for conventional memory.
pub const FIRMWARE_CONVENTIONAL: u32 = 7;

/// Firmware memory type number for loader code.
pub const FIRMWARE_LOADER_CODE: u32 = 1;

/// Firmware memory type number for loader data.
pub const FIRMWARE_LOADER_DATA: u32 = 2;

/// Classifies a firmware memory descriptor type: conventional memory and
/// the loader's own allocations count as usable RAM; everything else is
/// reserved.
pub fn classify_memory(ty: u32) -> (r: MemoryRegionKind)
    ensures
        r == (if ty == FIRMWARE_CONVENTIONAL || ty == FIRMWARE_LOADER_CODE || ty
            == FIRMWARE_LOADER_DATA {
            MemoryRegionKind::UsableRam
        } else {
            MemoryRegionKind::Reserved
        }),
{
    if ty == FIRMWARE_CONVENTIONAL || ty == FIRMWARE_LOADER_CODE || ty == FIRMWARE_LOADER_DATA {
        MemoryRegionKind::UsableRam
    } else {
        MemoryRegionKind::Reserved
    }
}

/// Number of whole pages covering `len` bytes.
pub fn pages_for_len(len: usize) -> (r: usize)
    requires
        len <= usize::MAX - FRAME_SIZE_BYTES + 1,
    ensures
        r == (len + FRAME_SIZE_BYTES - 1) / FRAME_SIZE_BYTES as int,
{
    (len + (FRAME_SIZE_BYTES - 1)) / FRAME_SIZE_BYTES
}

/// Assembles the handoff record the loader passes to the kernel: the
/// current format version, zero flags, the gathered memory map, and the
/// kernel image's SHA-256 digest.
pub fn build_boot_info(
    kernel_image: &[u8],
    stack_top: u64,
    memory_map: Vec<MemoryRegion>,
    rsdp: u64,
    bootfs: MemoryRange,
) -> (r: BootInfo)
    ensures
        r.version == BOOTINFO_VERSION,
        r.flags == 0,
        r.stack_top == stack_top,
        r.memory_map@ == memory_map@,
        r.rsdp == rsdp,
        r.bootfs == bootfs,
        r.kernel_digest@ == sha256_of(kernel_image@),
        r.kernel_digest@.len() == 32,
{
    let digest = sha256_digest(kernel_image);
    BootInfo {
        version: BOOTINFO_VERSION,
        flags: 0,
        stack_top,
        memory_map,
        rsdp,
        bootfs,
        kernel_digest: digest,
    }
}

} // verus!
