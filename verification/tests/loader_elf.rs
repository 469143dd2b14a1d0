//! Loader computations: memory classification, page sizing, handoff
//! assembly, and the ELF reader.

use rustcore::bootproto::{MemoryRange, MemoryRegionKind, BOOTINFO_VERSION};
use rustcore::elf::{ElfFile, PROGRAM_HEADER_LEN, SECTION_HEADER_LEN};
use rustcore::loader::{build_boot_info, classify_memory, pages_for_len, sha256_digest};

#[test]
fn classifies_firmware_memory() {
    assert_eq!(classify_memory(7), MemoryRegionKind::UsableRam);
    assert_eq!(classify_memory(1), MemoryRegionKind::UsableRam);
    assert_eq!(classify_memory(2), MemoryRegionKind::UsableRam);
    assert_eq!(classify_memory(0), MemoryRegionKind::Reserved);
    assert_eq!(classify_memory(9), MemoryRegionKind::Reserved);
    assert_eq!(classify_memory(11), MemoryRegionKind::Reserved);
}

#[test]
fn pages_cover_length() {
    assert_eq!(pages_for_len(0), 0);
    assert_eq!(pages_for_len(1), 1);
    assert_eq!(pages_for_len(4096), 1);
    assert_eq!(pages_for_len(4097), 2);
}

#[test]
fn handoff_record_carries_digest() {
    let info = build_boot_info(
        b"",
        0x9000,
        Vec::new(),
        0,
        MemoryRange { base: 0, length: 0 },
    );
    assert_eq!(info.version, BOOTINFO_VERSION);
    assert_eq!(info.flags, 0);
    assert_eq!(info.stack_top, 0x9000);
    // the SHA-256 digest of the empty byte string
    let expected = [
        0xe3u8, 0xb0, 0xc4, 0x42, 0x98, 0xfc, 0x1c, 0x14, 0x9a, 0xfb, 0xf4, 0xc8, 0x99, 0x6f,
        0xb9, 0x24, 0x27, 0xae, 0x41, 0xe4, 0x64, 0x9b, 0x93, 0x4c, 0xa4, 0x95, 0x99, 0x1b, 0x78,
        0x52, 0xb8, 0x55,
    ];
    assert_eq!(info.kernel_digest, expected.to_vec());
    assert_eq!(sha256_digest(b"abc").len(), 32);
}

fn minimal_elf() -> Vec<u8> {
    let mut d = vec![0u8; 64];
    d[0] = 0x7F;
    d[1] = b'E';
    d[2] = b'L';
    d[3] = b'F';
    d[4] = 2;
    d[5] = 1;
    d[18] = 0x3E;
    d[54..56].copy_from_slice(&(PROGRAM_HEADER_LEN as u16).to_le_bytes());
    d[58..60].copy_from_slice(&(SECTION_HEADER_LEN as u16).to_le_bytes());
    d
}

#[test]
fn parses_minimal_image() {
    let image = minimal_elf();
    let elf = ElfFile::parse(&image).unwrap();
    assert_eq!(elf.program_headers(&image).len(), 0);
    assert_eq!(elf.section_headers(&image).len(), 0);
    assert!(elf.lookup_symbol_address(&image, b"nothing").is_none());
}

#[test]
fn rejects_bad_images() {
    assert!(ElfFile::parse(b"short").is_err());
    let mut bad_magic = minimal_elf();
    bad_magic[0] = 0;
    assert!(ElfFile::parse(&bad_magic).is_err());
    let mut bad_machine = minimal_elf();
    bad_machine[18] = 0x03;
    assert!(ElfFile::parse(&bad_machine).is_err());
}

#[test]
fn reads_program_headers() {
    let mut image = minimal_elf();
    image[32..40].copy_from_slice(&64u64.to_le_bytes());
    image[56..58].copy_from_slice(&1u16.to_le_bytes());
    let mut ph = vec![0u8; PROGRAM_HEADER_LEN];
    ph[0..4].copy_from_slice(&1u32.to_le_bytes());
    ph[24..32].copy_from_slice(&0x200000u64.to_le_bytes());
    ph[32..40].copy_from_slice(&0x40u64.to_le_bytes());
    image.extend_from_slice(&ph);
    let elf = ElfFile::parse(&image).unwrap();
    let headers = elf.program_headers(&image);
    assert_eq!(headers.len(), 1);
    assert_eq!(headers[0].ph_type, 1);
    assert_eq!(headers[0].phys_addr, 0x200000);
    assert_eq!(headers[0].file_size, 0x40);
}

#[test]
fn finds_symbol_by_name() {
    // layout: ELF header, one symtab section header, one strtab section
    // header, the symbol record, the string table
    let mut image = minimal_elf();
    image[40..48].copy_from_slice(&64u64.to_le_bytes());
    image[60..62].copy_from_slice(&2u16.to_le_bytes());
    let sym_off: u64 = 64 + 2 * SECTION_HEADER_LEN as u64;
    let str_off: u64 = sym_off + 24;

    let mut symtab = vec![0u8; SECTION_HEADER_LEN];
    symtab[4..8].copy_from_slice(&2u32.to_le_bytes());
    symtab[24..32].copy_from_slice(&sym_off.to_le_bytes());
    symtab[32..40].copy_from_slice(&24u64.to_le_bytes());
    symtab[40..44].copy_from_slice(&1u32.to_le_bytes());
    symtab[56..64].copy_from_slice(&24u64.to_le_bytes());
    image.extend_from_slice(&symtab);

    let mut strtab = vec![0u8; SECTION_HEADER_LEN];
    strtab[4..8].copy_from_slice(&3u32.to_le_bytes());
    strtab[24..32].copy_from_slice(&str_off.to_le_bytes());
    strtab[32..40].copy_from_slice(&8u64.to_le_bytes());
    image.extend_from_slice(&strtab);

    let mut symbol = vec![0u8; 24];
    symbol[0..4].copy_from_slice(&1u32.to_le_bytes());
    symbol[8..16].copy_from_slice(&0xCAFE0u64.to_le_bytes());
    image.extend_from_slice(&symbol);

    image.extend_from_slice(b"\0entry\0\0");

    let elf = ElfFile::parse(&image).unwrap();
    assert_eq!(elf.lookup_symbol_address(&image, b"entry"), Some(0xCAFE0));
    assert_eq!(elf.lookup_symbol_address(&image, b"other"), None);
}
