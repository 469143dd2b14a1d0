//! Minimal ELF64 reader tailored for the kernel image: header validation,
//! program and section header tables, and symbol lookup. Every field is
//! read with bounds-checked little-endian accesses; nothing is read past
//! the image.

use vstd::prelude::*;

use crate::bytes::{bytes_eq, le16, le32, le64, spec_le16, spec_le32, spec_le64, subvec};

verus! {

/// Size of the ELF64 file header.
pub const ELF_HEADER_LEN: usize = 64;

/// Size of one ELF64 program header.
pub const PROGRAM_HEADER_LEN: usize = 56;

/// Size of one ELF64 section header.
pub const SECTION_HEADER_LEN: usize = 64;

/// Size of one ELF64 symbol record.
pub const SYMBOL_LEN: usize = 24;

/// Section type of a symbol table.
pub const SHT_SYMTAB: u32 = 2;

/// Program header type of a loadable segment.
pub const PT_LOAD: u32 = 1;

/// A well-formed image: the magic, 64-bit little-endian class, x86-64
/// machine, and the expected header-entry sizes.
pub open spec fn elf_header_ok(d: Seq<u8>) -> bool {
    &&& d.len() >= ELF_HEADER_LEN
    &&& d[0] == 0x7F
    &&& d[1] == 0x45
    &&& d[2] == 0x4C
    &&& d[3] == 0x46
    &&& d[4] == 2
    &&& d[5] == 1
    &&& spec_le16(d, 18) == 0x3E
    &&& spec_le16(d, 54) == PROGRAM_HEADER_LEN
    &&& spec_le16(d, 58) == SECTION_HEADER_LEN
}

/// One program header, as stored in the image.
#[derive(Clone, Copy, PartialEq, Eq, Structural)]
pub struct ProgramHeader {
    pub ph_type: u32,
    pub flags: u32,
    pub offset: u64,
    pub virt_addr: u64,
    pub phys_addr: u64,
    pub file_size: u64,
    pub mem_size: u64,
    pub align: u64,
}

/// One section header, as stored in the image.
#[derive(Clone, Copy, PartialEq, Eq, Structural)]
pub struct SectionHeader {
    pub name: u32,
    pub sh_type: u32,
    pub flags: u64,
    pub addr: u64,
    pub offset: u64,
    pub size: u64,
    pub link: u32,
    pub info: u32,
    pub addralign: u64,
    pub ent_size: u64,
}

/// The program header at byte offset `o`.
pub open spec fn spec_program_header(d: Seq<u8>, o: int) -> ProgramHeader {
    ProgramHeader {
        ph_type: spec_le32(d, o) as u32,
        flags: spec_le32(d, o + 4) as u32,
        offset: spec_le64(d, o + 8) as u64,
        virt_addr: spec_le64(d, o + 16) as u64,
        phys_addr: spec_le64(d, o + 24) as u64,
        file_size: spec_le64(d, o + 32) as u64,
        mem_size: spec_le64(d, o + 40) as u64,
        align: spec_le64(d, o + 48) as u64,
    }
}

/// The section header at byte offset `o`.
pub open spec fn spec_section_header(d: Seq<u8>, o: int) -> SectionHeader {
    SectionHeader {
        name: spec_le32(d, o) as u32,
        sh_type: spec_le32(d, o + 4) as u32,
        flags: spec_le64(d, o + 8) as u64,
        addr: spec_le64(d, o + 16) as u64,
        offset: spec_le64(d, o + 24) as u64,
        size: spec_le64(d, o + 32) as u64,
        link: spec_le32(d, o + 40) as u32,
        info: spec_le32(d, o + 44) as u32,
        addralign: spec_le64(d, o + 48) as u64,
        ent_size: spec_le64(d, o + 56) as u64,
    }
}

/// A validated ELF image's table locations.
pub struct ElfFile {
    program_offset: u64,
    program_count: u16,
    section_offset: u64,
    section_count: u16,
}

impl ElfFile {
    /// Where the program header table starts.
    pub closed spec fn spec_program_offset(&self) -> int {
        self.program_offset as int
    }

    /// How many program headers the image declares.
    pub closed spec fn spec_program_count(&self) -> int {
        self.program_count as int
    }

    /// Where the section header table starts.
    pub closed spec fn spec_section_offset(&self) -> int {
        self.section_offset as int
    }

    /// How many section headers the image declares.
    pub closed spec fn spec_section_count(&self) -> int {
        self.section_count as int
    }

    /// Validates an image's header. Accepted exactly when
    /// [`elf_header_ok`] holds; the table locations are read from the
    /// header.
    pub fn parse(bytes: &[u8]) -> (r: Result<ElfFile, &'static str>)
        ensures
            match r {
                Ok(f) => {
                    &&& elf_header_ok(bytes@)
                    &&& f.spec_program_offset() == spec_le64(bytes@, 32)
                    &&& f.spec_program_count() == spec_le16(bytes@, 56)
                    &&& f.spec_section_offset() == spec_le64(bytes@, 40)
                    &&& f.spec_section_count() == spec_le16(bytes@, 60)
                },
                Err(_) => !elf_header_ok(bytes@),
            },
    {
        if bytes.len() < ELF_HEADER_LEN {
            return Err("file too small for ELF header");
        }
        if !(bytes[0] == 0x7F && bytes[1] == 0x45 && bytes[2] == 0x4C && bytes[3] == 0x46) {
            return Err("invalid ELF magic");
        }
        if !(bytes[4] == 2 && bytes[5] == 1) {
            return Err("unsupported ELF class or endianness");
        }
        if le16(bytes, 18) != 0x3E {
            return Err("unsupported machine");
        }
        if le16(bytes, 54) as usize != PROGRAM_HEADER_LEN {
            return Err("unexpected program header size");
        }
        if le16(bytes, 58) as usize != SECTION_HEADER_LEN {
            return Err("unexpected section header size");
        }
        Ok(
            ElfFile {
                program_offset: le64(bytes, 32),
                program_count: le16(bytes, 56),
                section_offset: le64(bytes, 40),
                section_count: le16(bytes, 60),
            },
        )
    }

    /// Reads the program headers that lie fully inside the image, in table
    /// order, stopping at the first that does not.
    pub fn program_headers(&self, bytes: &[u8]) -> (r: Vec<ProgramHeader>)
        ensures
            r@.len() <= self.spec_program_count(),
            forall|i: int|
                0 <= i < r@.len() ==> #[trigger] r@[i] == spec_program_header(
                    bytes@,
                    self.spec_program_offset() + i * PROGRAM_HEADER_LEN,
                ),
    {
        let mut out: Vec<ProgramHeader> = Vec::new();
        let count = self.program_count as usize;
        let mut i: usize = 0;
        while i < count
            invariant
                i <= count,
                count == self.spec_program_count(),
                out@.len() == i,
                forall|j: int|
                    0 <= j < i ==> #[trigger] out@[j] == spec_program_header(
                        bytes@,
                        self.spec_program_offset() + j * PROGRAM_HEADER_LEN,
                    ),
            decreases count - i,
        {
            let o = match table_offset(self.program_offset, i, PROGRAM_HEADER_LEN, bytes.len()) {
                Some(o) => o,
                None => {
                    return out;
                },
            };
            proof {
                assert(o as int == self.spec_program_offset() + i * PROGRAM_HEADER_LEN);
            }
            let ph = ProgramHeader {
                ph_type: le32(bytes, o),
                flags: le32(bytes, o + 4),
                offset: le64(bytes, o + 8),
                virt_addr: le64(bytes, o + 16),
                phys_addr: le64(bytes, o + 24),
                file_size: le64(bytes, o + 32),
                mem_size: le64(bytes, o + 40),
                align: le64(bytes, o + 48),
            };
            out.push(ph);
            i += 1;
        }
        out
    }

    /// Reads the section headers that lie fully inside the image, in table
    /// order, stopping at the first that does not.
    pub fn section_headers(&self, bytes: &[u8]) -> (r: Vec<SectionHeader>)
        ensures
            r@.len() <= self.spec_section_count(),
            forall|i: int|
                0 <= i < r@.len() ==> #[trigger] r@[i] == spec_section_header(
                    bytes@,
                    self.spec_section_offset() + i * SECTION_HEADER_LEN,
                ),
    {
        let mut out: Vec<SectionHeader> = Vec::new();
        let count = self.section_count as usize;
        let mut i: usize = 0;
        while i < count
            invariant
                i <= count,
                count == self.spec_section_count(),
                out@.len() == i,
                forall|j: int|
                    0 <= j < i ==> #[trigger] out@[j] == spec_section_header(
                        bytes@,
                        self.spec_section_offset() + j * SECTION_HEADER_LEN,
                    ),
            decreases count - i,
        {
            let o = match table_offset(self.section_offset, i, SECTION_HEADER_LEN, bytes.len()) {
                Some(o) => o,
                None => {
                    return out;
                },
            };
            proof {
                assert(o as int == self.spec_section_offset() + i * SECTION_HEADER_LEN);
            }
            let sh = SectionHeader {
                name: le32(bytes, o),
                sh_type: le32(bytes, o + 4),
                flags: le64(bytes, o + 8),
                addr: le64(bytes, o + 16),
                offset: le64(bytes, o + 24),
                size: le64(bytes, o + 32),
                link: le32(bytes, o + 40),
                info: le32(bytes, o + 44),
                addralign: le64(bytes, o + 48),
                ent_size: le64(bytes, o + 56),
            };
            out.push(sh);
            i += 1;
        }
        out
    }

    /// Looks up a symbol's value by name: symbol tables are scanned in
    /// section order, and the first symbol whose zero-terminated name in
    /// the linked string table equals `name` wins. Bounds are checked on
    /// every access; a malformed table yields no match.
    pub fn lookup_symbol_address(&self, bytes: &[u8], name: &[u8]) -> (r: Option<u64>) {
        let sections = self.section_headers(bytes);
        let mut si: usize = 0;
        while si < sections.len()
            invariant
                si <= sections@.len(),
            decreases sections@.len() - si,
        {
            let sh = sections[si];
            if sh.sh_type == SHT_SYMTAB && sh.ent_size == SYMBOL_LEN as u64 {
                let strtab_idx = sh.link as usize;
                if strtab_idx < sections.len() {
                    let strtab = sections[strtab_idx];
                    match self.scan_symbols(bytes, &sh, &strtab, name) {
                        Some(v) => {
                            return Some(v);
                        },
                        None => {},
                    }
                }
            }
            si += 1;
        }
        None
    }

    /// Scans one symbol table for a name match against its string table.
    fn scan_symbols(
        &self,
        bytes: &[u8],
        symtab: &SectionHeader,
        strtab: &SectionHeader,
        name: &[u8],
    ) -> (r: Option<u64>) {
        let n = bytes.len();
        if strtab.offset > n as u64 || strtab.size > n as u64 - strtab.offset {
            return None;
        }
        proof {
            assert(SYMBOL_LEN == 24);
        }
        if symtab.offset > n as u64 || symtab.size > n as u64 - symtab.offset {
            return None;
        }
        let str_base = strtab.offset as usize;
        let str_len = strtab.size as usize;
        let entry_count64 = symtab.size / (SYMBOL_LEN as u64);
        if entry_count64 > n as u64 {
            return None;
        }
        let entry_count = entry_count64 as usize;
        let sym_base = symtab.offset as usize;
        proof {
            vstd::arithmetic::div_mod::lemma_fundamental_div_mod(
                symtab.size as int,
                SYMBOL_LEN as int,
            );
            vstd::arithmetic::div_mod::lemma_mod_bound(symtab.size as int, SYMBOL_LEN as int);
            assert(entry_count * SYMBOL_LEN <= symtab.size);
        }
        let mut idx: usize = 0;
        while idx < entry_count
            invariant
                idx <= entry_count,
                n == bytes@.len(),
                entry_count * SYMBOL_LEN <= symtab.size,
                symtab.size <= n,
                sym_base + symtab.size <= n,
                sym_base == symtab.offset,
                str_base + str_len <= n,
            decreases entry_count - idx,
        {
            proof {
                assert(idx * SYMBOL_LEN + SYMBOL_LEN <= entry_count * SYMBOL_LEN)
                    by (nonlinear_arith)
                    requires
                        idx < entry_count,
                        SYMBOL_LEN > 0,
                ;
            }
            let sym_offset = sym_base + idx * SYMBOL_LEN;
            let name_off = le32(bytes, sym_offset) as usize;
            let value = le64(bytes, sym_offset + 8);
            if name_off < str_len {
                // find the zero terminator within the string table
                match crate::bytes::find_byte(bytes, str_base + name_off, 0) {
                    Some(term) => {
                        if term < str_base + str_len {
                            let candidate = subvec(bytes, str_base + name_off, term);
                            if bytes_eq(candidate.as_slice(), name) {
                                return Some(value);
                            }
                        }
                    },
                    None => {},
                }
            }
            idx += 1;
        }
        None
    }
}

fn table_offset(base: u64, index: usize, entry_len: usize, total: usize) -> (r: Option<usize>)
    requires
        entry_len > 0,
    ensures
        match r {
            Some(o) => o as int == base + index * entry_len && o + entry_len <= total,
            None => true,
        },
{
    if base > total as u64 {
        return None;
    }
    let base = base as usize;
    let scaled = match index.checked_mul(entry_len) {
        Some(s) => s,
        None => {
            return None;
        },
    };
    let off = match base.checked_add(scaled) {
        Some(o) => o,
        None => {
            return None;
        },
    };
    let end = match off.checked_add(entry_len) {
        Some(e) => e,
        None => {
            return None;
        },
    };
    if end > total {
        return None;
    }
    Some(off)
}

} // verus!
