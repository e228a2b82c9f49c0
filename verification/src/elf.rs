//! ELF64 little-endian files: the file header, the program-header and
//! section-header tables, and the names given to their codes.

use vstd::prelude::*;
use crate::bytes::{le16, le32, le64, read_u16, read_u32, read_u64};
use crate::text::{cstr_text, read_cstr, ByteDisplay};

verus! {

/// `e_ident[EI_CLASS]` of a 64-bit file.
pub const ELFCLASS64: u8 = 2;
/// `e_ident[EI_DATA]` of a little-endian file.
pub const ELFDATA2LSB: u8 = 1;
/// `e_machine` of x86-64.
pub const EM_X86_64: u16 = 62;
/// `e_type` of a position-independent executable.
pub const ET_DYN: u16 = 3;
/// `e_type` of a fixed-address executable.
pub const ET_EXEC: u16 = 2;
/// Program-header type of a loadable segment.
pub const PT_LOAD: u32 = 1;
/// Program-header type of the dynamic section.
pub const PT_DYNAMIC: u32 = 2;
/// Program-header type of a note segment.
pub const PT_NOTE: u32 = 4;
/// The largest file that fits an NXE slot.
pub const NXE_MAX_SIZE: usize = 65536;

/// The fields of an ELF64 file header.
#[derive(Clone, Copy, PartialEq, Eq, Debug)]
pub struct ElfHeader {
    pub class: u8,
    pub encoding: u8,
    pub version: u8,
    pub osabi: u8,
    pub e_type: u16,
    pub e_machine: u16,
    pub e_entry: u64,
    pub e_phoff: u64,
    pub e_shoff: u64,
    pub e_flags: u32,
    pub e_ehsize: u16,
    pub e_phentsize: u16,
    pub e_phnum: u16,
    pub e_shentsize: u16,
    pub e_shnum: u16,
    pub e_shstrndx: u16,
}

/// The header fields stored in the first 64 bytes of `d`.
pub open spec fn elf_header_of(d: Seq<u8>) -> ElfHeader {
    ElfHeader {
        class: d[4],
        encoding: d[5],
        version: d[6],
        osabi: d[7],
        e_type: le16(d, 16) as u16,
        e_machine: le16(d, 18) as u16,
        e_entry: le64(d, 24) as u64,
        e_phoff: le64(d, 32) as u64,
        e_shoff: le64(d, 40) as u64,
        e_flags: le32(d, 48) as u32,
        e_ehsize: le16(d, 52) as u16,
        e_phentsize: le16(d, 54) as u16,
        e_phnum: le16(d, 56) as u16,
        e_shentsize: le16(d, 58) as u16,
        e_shnum: le16(d, 60) as u16,
        e_shstrndx: le16(d, 62) as u16,
    }
}

/// Each header field is read from its own place in the file: the 16-bit
/// fields from two bytes, the 32-bit ones from four and the 64-bit ones from
/// eight, least significant byte first (ELF64 `e_ident` and the fields at
/// offsets 16 to 63).
pub proof fn lemma_header_field_offsets(d: Seq<u8>)
    requires
        d.len() >= 64,
    ensures ({
        let h = elf_header_of(d);
        &&& h.class == d[4]
        &&& h.encoding == d[5]
        &&& h.version == d[6]
        &&& h.osabi == d[7]
        &&& h.e_type == d[16] + 256 * d[17]
        &&& h.e_machine == d[18] + 256 * d[19]
        &&& h.e_entry == d[24] + 0x100 * d[25] + 0x1_0000 * d[26] + 0x100_0000 * d[27] + 0x1_0000_0000 * d[28]
            + 0x100_0000_0000 * d[29] + 0x1_0000_0000_0000 * d[30] + 0x100_0000_0000_0000 * d[31]
        &&& h.e_phoff == d[32] + 0x100 * d[33] + 0x1_0000 * d[34] + 0x100_0000 * d[35] + 0x1_0000_0000 * d[36]
            + 0x100_0000_0000 * d[37] + 0x1_0000_0000_0000 * d[38] + 0x100_0000_0000_0000 * d[39]
        &&& h.e_shoff == d[40] + 0x100 * d[41] + 0x1_0000 * d[42] + 0x100_0000 * d[43] + 0x1_0000_0000 * d[44]
            + 0x100_0000_0000 * d[45] + 0x1_0000_0000_0000 * d[46] + 0x100_0000_0000_0000 * d[47]
        &&& h.e_flags == d[48] + 0x100 * d[49] + 0x1_0000 * d[50] + 0x100_0000 * d[51]
        &&& h.e_ehsize == d[52] + 256 * d[53]
        &&& h.e_phentsize == d[54] + 256 * d[55]
        &&& h.e_phnum == d[56] + 256 * d[57]
        &&& h.e_shentsize == d[58] + 256 * d[59]
        &&& h.e_shnum == d[60] + 256 * d[61]
        &&& h.e_shstrndx == d[62] + 256 * d[63]
    }),
{
}

/// `d` starts with `\x7fELF`.
pub open spec fn elf_magic_ok(d: Seq<u8>) -> bool {
    d.len() >= 4 && d[0] == 0x7f && d[1] == 0x45 && d[2] == 0x4c && d[3] == 0x46
}

/// Why a file is not an ELF64 little-endian file.
#[derive(Clone, Copy, PartialEq, Eq, Debug)]
pub enum ElfError {
    /// Fewer than 64 bytes; the file's size.
    TooSmall(usize),
    /// The first four bytes are not `\x7fELF`.
    BadMagic,
    /// Not a 64-bit file; the class byte.
    NotElf64(u8),
    /// Not little-endian; the data-encoding byte.
    NotLittleEndian(u8),
}

/// Whether `data` starts with the ELF magic `\x7fELF`.
pub fn has_elf_magic(data: &[u8]) -> (b: bool)
    ensures
        b == elf_magic_ok(data@),
{
    data.len() >= 4 && data[0] == 0x7f && data[1] == 0x45 && data[2] == 0x4c && data[3] == 0x46
}

/// Reads the file header of an ELF64 little-endian file; the checks come in
/// this order: size, magic, class, data encoding.
pub fn parse_elf_header(data: &[u8]) -> (r: Result<ElfHeader, ElfError>)
    ensures
        match r {
            Ok(h) => {
                &&& data@.len() >= 64
                &&& elf_magic_ok(data@)
                &&& data@[4] == ELFCLASS64
                &&& data@[5] == ELFDATA2LSB
                &&& h == elf_header_of(data@)
            },
            Err(ElfError::TooSmall(n)) => data@.len() < 64 && n == data@.len(),
            Err(ElfError::BadMagic) => data@.len() >= 64 && !elf_magic_ok(data@),
            Err(ElfError::NotElf64(c)) => {
                &&& data@.len() >= 64
                &&& elf_magic_ok(data@)
                &&& c == data@[4]
                &&& c != ELFCLASS64
            },
            Err(ElfError::NotLittleEndian(e)) => {
                &&& data@.len() >= 64
                &&& elf_magic_ok(data@)
                &&& data@[4] == ELFCLASS64
                &&& e == data@[5]
                &&& e != ELFDATA2LSB
            },
        },
{
    if data.len() < 64 {
        return Err(ElfError::TooSmall(data.len()));
    }
    if !has_elf_magic(data) {
        return Err(ElfError::BadMagic);
    }
    let class = data[4];
    let encoding = data[5];
    if class != ELFCLASS64 {
        return Err(ElfError::NotElf64(class));
    }
    if encoding != ELFDATA2LSB {
        return Err(ElfError::NotLittleEndian(encoding));
    }
    Ok(ElfHeader {
        class,
        encoding,
        version: data[6],
        osabi: data[7],
        e_type: read_u16(data, 16),
        e_machine: read_u16(data, 18),
        e_entry: read_u64(data, 24),
        e_phoff: read_u64(data, 32),
        e_shoff: read_u64(data, 40),
        e_flags: read_u32(data, 48),
        e_ehsize: read_u16(data, 52),
        e_phentsize: read_u16(data, 54),
        e_phnum: read_u16(data, 56),
        e_shentsize: read_u16(data, 58),
        e_shnum: read_u16(data, 60),
        e_shstrndx: read_u16(data, 62),
    })
}

/// A problem that keeps a file from being a valid NXE.
#[derive(Clone, Copy, PartialEq, Eq, Debug)]
pub enum NxeIssue {
    /// Fewer than 64 bytes.
    TooSmall,
    /// The ELF magic is missing.
    BadMagic,
    /// Not a 64-bit file.
    Not64Bit,
    /// Not little-endian.
    NotLittleEndian,
    /// The file type is neither `ET_DYN` nor `ET_EXEC`; the type.
    UnsupportedType(u16),
    /// The machine is not x86-64; the machine.
    UnsupportedMachine(u16),
    /// Larger than an NXE slot; the file's size.
    TooLarge(usize),
}

/// The problems found in `d`, in the order they are checked.
pub open spec fn nxe_issues(d: Seq<u8>, e_type: u16, e_machine: u16) -> Seq<NxeIssue> {
    let s0: Seq<NxeIssue> = if d.len() < 64 { seq![NxeIssue::TooSmall] } else { seq![] };
    let s1 = if !(d[0] == 0x7f && d[1] == 0x45 && d[2] == 0x4c && d[3] == 0x46) {
        s0.push(NxeIssue::BadMagic)
    } else {
        s0
    };
    let s2 = if d[4] != ELFCLASS64 { s1.push(NxeIssue::Not64Bit) } else { s1 };
    let s3 = if d[5] != ELFDATA2LSB { s2.push(NxeIssue::NotLittleEndian) } else { s2 };
    let s4 = if e_type != ET_DYN && e_type != ET_EXEC {
        s3.push(NxeIssue::UnsupportedType(e_type))
    } else {
        s3
    };
    let s5 = if e_machine != EM_X86_64 { s4.push(NxeIssue::UnsupportedMachine(e_machine)) } else { s4 };
    if d.len() > NXE_MAX_SIZE {
        s5.push(NxeIssue::TooLarge(d.len() as usize))
    } else {
        s5
    }
}

/// Checks that a file is a valid NXE: at least 64 bytes, ELF magic, 64-bit,
/// little-endian, `ET_DYN` or `ET_EXEC`, x86-64, and at most 64 KiB.
/// Returns every problem found, in that order.
pub fn check_nxe(data: &[u8], e_type: u16, e_machine: u16) -> (issues: Vec<NxeIssue>)
    requires
        data@.len() >= 6,
    ensures
        issues@ == nxe_issues(data@, e_type, e_machine),
{
    let mut issues: Vec<NxeIssue> = Vec::new();
    if data.len() < 64 {
        issues.push(NxeIssue::TooSmall);
    }
    if !(data[0] == 0x7f && data[1] == 0x45 && data[2] == 0x4c && data[3] == 0x46) {
        issues.push(NxeIssue::BadMagic);
    }
    if data[4] != ELFCLASS64 {
        issues.push(NxeIssue::Not64Bit);
    }
    if data[5] != ELFDATA2LSB {
        issues.push(NxeIssue::NotLittleEndian);
    }
    if e_type != ET_DYN && e_type != ET_EXEC {
        issues.push(NxeIssue::UnsupportedType(e_type));
    }
    if e_machine != EM_X86_64 {
        issues.push(NxeIssue::UnsupportedMachine(e_machine));
    }
    if data.len() > NXE_MAX_SIZE {
        issues.push(NxeIssue::TooLarge(data.len()));
    }
    assert(issues@ =~= nxe_issues(data@, e_type, e_machine));
    issues
}

/// How many consecutive table entries of `size` bytes, from entry `i` on and
/// at most `num` in all, lie wholly within a file of `len` bytes, entry `k`
/// starting at `base + k * stride`: reading stops at the first that does not.
pub open spec fn table_fit_count(len: int, base: int, stride: int, num: int, size: int, i: int) -> int
    decreases num - i,
{
    if i >= num || base + i * stride + size > len {
        i
    } else {
        table_fit_count(len, base, stride, num, size, i + 1)
    }
}

/// A program header, as the tools show it.
#[derive(Clone, Copy, PartialEq, Eq, Debug)]
pub struct ProgramHeader {
    pub p_type: u32,
    pub p_flags: u32,
    pub p_offset: u64,
    pub p_vaddr: u64,
    pub p_filesz: u64,
    pub p_memsz: u64,
    pub p_align: u64,
}

/// The program header stored at `off`.
pub open spec fn ph_at(d: Seq<u8>, off: int) -> ProgramHeader {
    ProgramHeader {
        p_type: le32(d, off) as u32,
        p_flags: le32(d, off + 4) as u32,
        p_offset: le64(d, off + 8) as u64,
        p_vaddr: le64(d, off + 16) as u64,
        p_filesz: le64(d, off + 32) as u64,
        p_memsz: le64(d, off + 40) as u64,
        p_align: le64(d, off + 48) as u64,
    }
}

/// The program headers read from a table of `num` entries at `phoff`, one
/// every `ent` bytes: those before the first that does not fit in the file.
pub open spec fn ph_list(d: Seq<u8>, phoff: int, ent: int, num: int) -> Seq<ProgramHeader> {
    Seq::new(
        table_fit_count(d.len() as int, phoff, ent, num, 56, 0) as nat,
        |i: int| ph_at(d, phoff + i * ent),
    )
}

fn read_ph(data: &[u8], off: usize) -> (ph: ProgramHeader)
    requires
        off + 56 <= data.len(),
    ensures
        ph == ph_at(data@, off as int),
{
    ProgramHeader {
        p_type: read_u32(data, off),
        p_flags: read_u32(data, off + 4),
        p_offset: read_u64(data, off + 8),
        p_vaddr: read_u64(data, off + 16),
        p_filesz: read_u64(data, off + 32),
        p_memsz: read_u64(data, off + 40),
        p_align: read_u64(data, off + 48),
    }
}

/// Reads the program-header table: `phnum` entries at `phoff`, one every
/// `phentsize` bytes, stopping at the first entry that does not fit in the file.
pub fn program_headers(data: &[u8], phoff: u64, phentsize: u16, phnum: u16) -> (r: Vec<ProgramHeader>)
    ensures
        r@ == ph_list(data@, phoff as int, phentsize as int, phnum as int),
{
    let ghost len = data@.len() as int;
    let ent = phentsize as u128;
    let n = phnum as u64;
    let mut r: Vec<ProgramHeader> = Vec::new();
    let mut i: u64 = 0;
    let mut off: u128 = phoff as u128;
    while i < n
        invariant
            len == data@.len(),
            ent == phentsize,
            n == phnum,
            i <= n,
            off == phoff + i * ent,
            i * ent <= 65535 * 65535,
            table_fit_count(len, phoff as int, ent as int, n as int, 56, 0)
                == table_fit_count(len, phoff as int, ent as int, n as int, 56, i as int),
            r@.len() == i,
            forall|k: int| 0 <= k < i ==> #[trigger] r@[k] == ph_at(data@, phoff + k * ent),
        ensures
            table_fit_count(len, phoff as int, ent as int, n as int, 56, 0) == i,
            r@.len() == i,
            forall|k: int| 0 <= k < i ==> #[trigger] r@[k] == ph_at(data@, phoff + k * ent),
        decreases n - i,
    {
        if off + 56 > data.len() as u128 {
            break;
        }
        let ph = read_ph(data, off as usize);
        r.push(ph);
        proof {
            assert((i + 1) * ent == i * ent + ent) by (nonlinear_arith);
            assert((i + 1) * ent <= 65535 * 65535) by (nonlinear_arith)
                requires
                    i + 1 <= 65535,
                    ent <= 65535,
            ;
        }
        off = off + ent;
        i = i + 1;
    }
    assert(r@ =~= ph_list(data@, phoff as int, phentsize as int, phnum as int));
    r
}

/// A section header, as the tools read it: the address is taken from byte 12
/// of the entry.
#[derive(Clone, Copy, PartialEq, Eq, Debug)]
pub struct SectionHeader {
    pub sh_name: u32,
    pub sh_type: u32,
    pub sh_addr: u64,
    pub sh_offset: u64,
    pub sh_size: u64,
}

/// The section header stored at `off`.
pub open spec fn sh_at(d: Seq<u8>, off: int) -> SectionHeader {
    SectionHeader {
        sh_name: le32(d, off) as u32,
        sh_type: le32(d, off + 4) as u32,
        sh_addr: le64(d, off + 12) as u64,
        sh_offset: le64(d, off + 24) as u64,
        sh_size: le64(d, off + 32) as u64,
    }
}

/// The section headers read from a table of `num` entries at `shoff`, one
/// every `ent` bytes: those before the first that does not fit in the file.
pub open spec fn sh_list(d: Seq<u8>, shoff: int, ent: int, num: int) -> Seq<SectionHeader> {
    Seq::new(
        table_fit_count(d.len() as int, shoff, ent, num, 64, 0) as nat,
        |i: int| sh_at(d, shoff + i * ent),
    )
}

/// Reads the section-header table: `shnum` entries at `shoff`, one every
/// `shentsize` bytes, stopping at the first entry that does not fit in the file.
pub fn section_headers(data: &[u8], shoff: u64, shentsize: u16, shnum: u16) -> (r: Vec<SectionHeader>)
    ensures
        r@ == sh_list(data@, shoff as int, shentsize as int, shnum as int),
{
    let ghost len = data@.len() as int;
    let ent = shentsize as u128;
    let n = shnum as u64;
    let mut r: Vec<SectionHeader> = Vec::new();
    let mut i: u64 = 0;
    let mut off: u128 = shoff as u128;
    while i < n
        invariant
            len == data@.len(),
            ent == shentsize,
            n == shnum,
            i <= n,
            off == shoff + i * ent,
            i * ent <= 65535 * 65535,
            table_fit_count(len, shoff as int, ent as int, n as int, 64, 0)
                == table_fit_count(len, shoff as int, ent as int, n as int, 64, i as int),
            r@.len() == i,
            forall|k: int| 0 <= k < i ==> #[trigger] r@[k] == sh_at(data@, shoff + k * ent),
        ensures
            table_fit_count(len, shoff as int, ent as int, n as int, 64, 0) == i,
            r@.len() == i,
            forall|k: int| 0 <= k < i ==> #[trigger] r@[k] == sh_at(data@, shoff + k * ent),
        decreases n - i,
    {
        if off + 64 > data.len() as u128 {
            break;
        }
        let o = off as usize;
        r.push(SectionHeader {
            sh_name: read_u32(data, o),
            sh_type: read_u32(data, o + 4),
            sh_addr: read_u64(data, o + 12),
            sh_offset: read_u64(data, o + 24),
            sh_size: read_u64(data, o + 32),
        });
        proof {
            assert((i + 1) * ent == i * ent + ent) by (nonlinear_arith);
            assert((i + 1) * ent <= 65535 * 65535) by (nonlinear_arith)
                requires
                    i + 1 <= 65535,
                    ent <= 65535,
            ;
        }
        off = off + ent;
        i = i + 1;
    }
    assert(r@ =~= sh_list(data@, shoff as int, shentsize as int, shnum as int));
    r
}

/// The product of two 16-bit values.
fn mul_u16(a: u16, b: u16) -> (r: u64)
    ensures
        r == a * b,
{
    assert(a as int * b as int <= 65535 * 65535) by (nonlinear_arith)
        requires
            a <= 65535,
            b <= 65535,
    ;
    a as u64 * b as u64
}

/// A section as the tools list it: its name when it can be read, its type,
/// address, file offset and size.
pub struct SectionInfo {
    pub name: Option<String>,
    pub sh_type: u32,
    pub addr: u64,
    pub offset: u64,
    pub size: u64,
}

#[verifier::ext_equal]
pub struct SectionInfoView {
    pub name: Option<Seq<char>>,
    pub sh_type: u32,
    pub addr: u64,
    pub offset: u64,
    pub size: u64,
}

impl View for SectionInfo {
    type V = SectionInfoView;

    open spec fn view(&self) -> SectionInfoView {
        SectionInfoView {
            name: match self.name {
                Some(n) => Some(n@),
                None => None,
            },
            sh_type: self.sh_type,
            addr: self.addr,
            offset: self.offset,
            size: self.size,
        }
    }
}

/// Where the section names start: the 32-bit file offset stored in the
/// section-name string table's header, or 0 when that header does not fit.
pub open spec fn strtab_name_base(d: Seq<u8>, shoff: int, ent: int, shstrndx: int) -> int {
    let so = shoff + shstrndx * ent;
    if so + 64 <= d.len() {
        le32(d, so + 24)
    } else {
        0
    }
}

/// A section as listed, with the given name.
pub open spec fn section_view(d: Seq<u8>, sh: SectionHeader, name: Option<Seq<char>>) -> SectionInfoView {
    SectionInfoView {
        name,
        sh_type: sh.sh_type,
        addr: sh.sh_addr,
        offset: sh.sh_offset,
        size: sh.sh_size,
    }
}

/// The name of a section whose name is at `sh_name` in the names at `base`,
/// when `base` is set and the name starts within the file.
pub open spec fn info_section_name(d: Seq<u8>, base: int, sh_name: int) -> Option<Seq<char>> {
    if base > 0 && base + sh_name < d.len() {
        Some(cstr_text(d, base + sh_name, ByteDisplay::Printable))
    } else {
        None
    }
}

/// The section listing of the inspector: nothing when there is no section
/// table, else every section that fits, with its name where it can be read.
pub open spec fn section_listing_spec(d: Seq<u8>, shoff: int, ent: int, num: int, shstrndx: int) -> Option<Seq<SectionInfoView>> {
    if shoff == 0 || num == 0 {
        None
    } else {
        let base = strtab_name_base(d, shoff, ent, shstrndx);
        Some(sh_list(d, shoff, ent, num).map(
            |i: int, sh: SectionHeader| section_view(d, sh, info_section_name(d, base, sh.sh_name as int)),
        ))
    }
}

/// Reads the section listing of the inspector: `None` when `shoff` or `shnum`
/// is zero; else the sections that fit, each named from the section-name
/// string table when its header fits and the name starts within the file.
pub fn section_listing(data: &[u8], shoff: u64, shentsize: u16, shnum: u16, shstrndx: u16) -> (r: Option<Vec<SectionInfo>>)
    ensures
        match r {
            None => section_listing_spec(data@, shoff as int, shentsize as int, shnum as int, shstrndx as int) is None,
            Some(v) => section_listing_spec(data@, shoff as int, shentsize as int, shnum as int, shstrndx as int)
                == Some(v@.map_values(|x: SectionInfo| x@)),
        },
{
    if shoff == 0 || shnum == 0 {
        return None;
    }
    let so: u128 = shoff as u128 + mul_u16(shstrndx, shentsize) as u128;
    let base: u32 = if so + 64 <= data.len() as u128 {
        read_u32(data, (so + 24) as usize)
    } else {
        0
    };
    assert(base == strtab_name_base(data@, shoff as int, shentsize as int, shstrndx as int));
    let shs = section_headers(data, shoff, shentsize, shnum);
    let ghost spec_list = sh_list(data@, shoff as int, shentsize as int, shnum as int).map(
        |i: int, sh: SectionHeader| section_view(data@, sh, info_section_name(data@, base as int, sh.sh_name as int)),
    );
    let mut out: Vec<SectionInfo> = Vec::new();
    let mut i: usize = 0;
    while i < shs.len()
        invariant
            shs@ == sh_list(data@, shoff as int, shentsize as int, shnum as int),
            spec_list.len() == shs@.len(),
            spec_list == sh_list(data@, shoff as int, shentsize as int, shnum as int).map(
                |i: int, sh: SectionHeader| section_view(data@, sh, info_section_name(data@, base as int, sh.sh_name as int)),
            ),
            i <= shs@.len(),
            out@.len() == i,
            forall|k: int| 0 <= k < i ==> (#[trigger] out@[k])@ == spec_list[k],
        decreases shs@.len() - i,
    {
        let sh = shs[i];
        let name = if base > 0 && (base as u64 + sh.sh_name as u64) < data.len() as u64 {
            Some(read_cstr(data, (base as u64 + sh.sh_name as u64) as usize, ByteDisplay::Printable))
        } else {
            None
        };
        out.push(SectionInfo { name, sh_type: sh.sh_type, addr: sh.sh_addr, offset: sh.sh_offset, size: sh.sh_size });
        i = i + 1;
    }
    assert(out@.map_values(|x: SectionInfo| x@) =~= spec_list);
    Some(out)
}

/// The section listing of the dump tool: nothing when there is no section
/// table or the header of the section-name string table does not fit; else
/// every section that fits, with its raw name where it starts within the file.
pub open spec fn dump_sections_spec(d: Seq<u8>) -> Option<Seq<SectionInfoView>> {
    let shoff = le64(d, 40);
    let num = le16(d, 60);
    let ent = le16(d, 58);
    let so = shoff + le16(d, 62) * ent;
    if shoff == 0 || num == 0 || so + 64 > d.len() {
        None
    } else {
        let base = le32(d, so + 24);
        Some(sh_list(d, shoff, ent, num).map(
            |i: int, sh: SectionHeader| section_view(d, sh, if base + sh.sh_name < d.len() {
                Some(cstr_text(d, base + sh.sh_name, ByteDisplay::Latin1))
            } else {
                None
            }),
        ))
    }
}

/// Reads the section listing of the dump tool from the file header's section
/// fields: `None` when the table is absent or the section-name string table's
/// header does not fit; else the sections that fit, each with its name read
/// byte for byte when it starts within the file.
pub fn dump_sections(data: &[u8]) -> (r: Option<Vec<SectionInfo>>)
    requires
        data@.len() >= 62,
        le64(data@, 40) != 0 && le16(data@, 60) != 0 ==> data@.len() >= 64,
    ensures
        match r {
            None => dump_sections_spec(data@) is None,
            Some(v) => dump_sections_spec(data@) == Some(v@.map_values(|x: SectionInfo| x@)),
        },
{
    let shoff = read_u64(data, 40);
    let shnum = read_u16(data, 60);
    if shoff == 0 || shnum == 0 {
        return None;
    }
    let shentsize = read_u16(data, 58);
    let shstrndx = read_u16(data, 62);
    let so: u128 = shoff as u128 + mul_u16(shstrndx, shentsize) as u128;
    if so + 64 > data.len() as u128 {
        return None;
    }
    let base = read_u32(data, (so + 24) as usize);
    let shs = section_headers(data, shoff, shentsize, shnum);
    let ghost spec_list = dump_sections_spec(data@)->0;
    let mut out: Vec<SectionInfo> = Vec::new();
    let mut i: usize = 0;
    while i < shs.len()
        invariant
            shs@ == sh_list(data@, shoff as int, shentsize as int, shnum as int),
            dump_sections_spec(data@) == Some(spec_list),
            spec_list == sh_list(data@, shoff as int, shentsize as int, shnum as int).map(
                |i: int, sh: SectionHeader| section_view(data@, sh, if base + sh.sh_name < data@.len() {
                    Some(cstr_text(data@, base + sh.sh_name, ByteDisplay::Latin1))
                } else {
                    None
                }),
            ),
            i <= shs@.len(),
            out@.len() == i,
            forall|k: int| 0 <= k < i ==> (#[trigger] out@[k])@ == spec_list[k],
        decreases shs@.len() - i,
    {
        let sh = shs[i];
        let name = if (base as u64 + sh.sh_name as u64) < data.len() as u64 {
            Some(read_cstr(data, (base as u64 + sh.sh_name as u64) as usize, ByteDisplay::Latin1))
        } else {
            None
        };
        out.push(SectionInfo { name, sh_type: sh.sh_type, addr: sh.sh_addr, offset: sh.sh_offset, size: sh.sh_size });
        i = i + 1;
    }
    assert(out@.map_values(|x: SectionInfo| x@) =~= spec_list);
    Some(out)
}

/// For a file whose header reads, the NXE check only ever reports the type,
/// the machine and the size, and finds nothing exactly when the type is
/// `ET_DYN` or `ET_EXEC`, the machine x86-64 and the size at most 64 KiB.
pub proof fn lemma_readable_header_issues(d: Seq<u8>, e_type: u16, e_machine: u16)
    requires
        d.len() >= 64,
        elf_magic_ok(d),
        d[4] == ELFCLASS64,
        d[5] == ELFDATA2LSB,
    ensures
        forall|k: int| 0 <= k < nxe_issues(d, e_type, e_machine).len() ==> {
            let issue = #[trigger] nxe_issues(d, e_type, e_machine)[k];
            &&& issue != NxeIssue::TooSmall
            &&& issue != NxeIssue::BadMagic
            &&& issue != NxeIssue::Not64Bit
            &&& issue != NxeIssue::NotLittleEndian
        },
        nxe_issues(d, e_type, e_machine).len() == 0 <==> ((e_type == ET_DYN || e_type == ET_EXEC)
            && e_machine == EM_X86_64 && d.len() <= NXE_MAX_SIZE),
{
    let s3 = Seq::<NxeIssue>::empty();
    let s4 = if e_type != ET_DYN && e_type != ET_EXEC { s3.push(NxeIssue::UnsupportedType(e_type)) } else { s3 };
    let s5 = if e_machine != EM_X86_64 { s4.push(NxeIssue::UnsupportedMachine(e_machine)) } else { s4 };
    let s6 = if d.len() > NXE_MAX_SIZE { s5.push(NxeIssue::TooLarge(d.len() as usize)) } else { s5 };
    assert(nxe_issues(d, e_type, e_machine) == s6);
}

} // verus!
