//! Reading NXP packages.
//!
//! Layout (all integers little-endian):
//! - header, 32 bytes: magic `NXP1` (u32), header CRC-32 over bytes 8..32 (u32),
//!   format version major (u16) and minor (u16), flags (u32), manifest offset (u32),
//!   manifest size (u32), entry count (u32), signature offset (u32);
//! - manifest: records of a 4-byte tag, a u32 length and that many value bytes;
//! - file table, right after the manifest: 32 bytes per entry: path offset into the
//!   string pool, data offset, data size, CRC-32 of the data, flags and three reserved words;
//! - string pool, right after the file table: NUL-terminated paths;
//! - file contents.

use vstd::prelude::*;
use vstd::slice::slice_to_vec;
use crate::bytes::{le16, le32, read_u16, read_u32};
use crate::crc::{crc32, crc32_calc};
use crate::text::{cstr_text, decoded_text, get_str_at, lossy_string, ByteDisplay};

verus! {

/// `NXP1` read as a little-endian `u32`.
pub const MAGIC_NXP1: u32 = 0x3150584E;
/// Manifest tag `NAME`.
pub const TAG_NAME: u32 = 0x454D414E;
/// Manifest tag `VER ` (with a trailing space).
pub const TAG_VER: u32 = 0x20524556;
/// Manifest tag `DESC`.
pub const TAG_DESC: u32 = 0x43534544;
/// Manifest tag `ARCH`.
pub const TAG_ARCH: u32 = 0x48435241;

/// A manifest record: its tag and where its value lies in the package.
#[verifier::ext_equal]
pub struct Tlv {
    pub tag: u32,
    pub start: int,
    pub len: int,
}

/// The complete manifest records from `pos` on, up to `end`: reading stops at the
/// first record whose header or value would cross `end`.
pub open spec fn tlv_records(d: Seq<u8>, pos: int, end: int) -> Seq<Tlv>
    decreases end - pos,
{
    if pos + 8 > end {
        seq![]
    } else {
        let len = le32(d, pos + 4);
        if pos + 8 + len > end {
            seq![]
        } else {
            seq![Tlv { tag: le32(d, pos) as u32, start: pos + 8, len }] + tlv_records(
                d,
                pos + 8 + len,
                end,
            )
        }
    }
}

/// The last record with tag `tag`, if any.
pub open spec fn last_tlv(recs: Seq<Tlv>, tag: u32) -> Option<Tlv>
    decreases recs.len(),
{
    if recs.len() == 0 {
        None
    } else if recs.last().tag == tag {
        Some(recs.last())
    } else {
        last_tlv(recs.drop_last(), tag)
    }
}

/// The text of the last manifest record with tag `tag`, or the empty text.
pub open spec fn tlv_text(d: Seq<u8>, recs: Seq<Tlv>, tag: u32) -> Seq<char> {
    match last_tlv(recs, tag) {
        Some(r) => decoded_text(d.subrange(r.start, r.start + r.len)),
        None => seq![],
    }
}

pub open spec fn nxp_manifest_off(d: Seq<u8>) -> int {
    le32(d, 16)
}

pub open spec fn nxp_manifest_end(d: Seq<u8>) -> int {
    le32(d, 16) + le32(d, 20)
}

pub open spec fn nxp_entry_count(d: Seq<u8>) -> int {
    le32(d, 24)
}

/// Where the file table ends and the string pool starts.
pub open spec fn nxp_table_end(d: Seq<u8>) -> int {
    nxp_manifest_end(d) + 32 * nxp_entry_count(d)
}

/// Where entry `i` of the file table starts.
pub open spec fn nxp_entry_base(d: Seq<u8>, i: int) -> int {
    nxp_manifest_end(d) + 32 * i
}

pub open spec fn nxp_entry_path_off(d: Seq<u8>, i: int) -> int {
    le32(d, nxp_entry_base(d, i))
}

pub open spec fn nxp_entry_data_off(d: Seq<u8>, i: int) -> int {
    le32(d, nxp_entry_base(d, i) + 4)
}

pub open spec fn nxp_entry_data_size(d: Seq<u8>, i: int) -> int {
    le32(d, nxp_entry_base(d, i) + 8)
}

pub open spec fn nxp_entry_crc(d: Seq<u8>, i: int) -> int {
    le32(d, nxp_entry_base(d, i) + 12)
}

/// The data of entry `i` lies within the package.
pub open spec fn nxp_entry_fits(d: Seq<u8>, i: int) -> bool {
    nxp_entry_data_off(d, i) + nxp_entry_data_size(d, i) <= d.len()
}

/// The path of entry `i`, read from the string pool.
pub open spec fn nxp_entry_path(d: Seq<u8>, i: int) -> Seq<char> {
    cstr_text(
        d.subrange(nxp_table_end(d), d.len() as int),
        nxp_entry_path_off(d, i),
        ByteDisplay::AsciiOrReplacement,
    )
}

pub open spec fn nxp_header_ok(d: Seq<u8>) -> bool {
    d.len() >= 32 && le32(d, 0) == MAGIC_NXP1
}

pub open spec fn nxp_manifest_fits(d: Seq<u8>) -> bool {
    nxp_manifest_end(d) <= d.len()
}

pub open spec fn nxp_table_fits(d: Seq<u8>) -> bool {
    nxp_table_end(d) <= d.len()
}

/// Everything that reading a package checks holds of `d`.
pub open spec fn nxp_well_formed(d: Seq<u8>) -> bool {
    &&& nxp_header_ok(d)
    &&& nxp_manifest_fits(d)
    &&& nxp_table_fits(d)
    &&& forall|i: int| 0 <= i < nxp_entry_count(d) ==> #[trigger] nxp_entry_fits(d, i)
}

/// A file of a package as it is read back.
#[verifier::ext_equal]
pub struct EntryView {
    pub path: Seq<char>,
    pub data: Seq<u8>,
    pub crc32: u32,
}

/// A package as it is read back.
#[verifier::ext_equal]
pub struct PackageView {
    pub name: Seq<char>,
    pub version: Seq<char>,
    pub description: Seq<char>,
    pub ver_major: u16,
    pub ver_minor: u16,
    pub flags: u32,
    pub header_crc: u32,
    pub entries: Seq<EntryView>,
}

pub open spec fn nxp_entry_view(d: Seq<u8>, i: int) -> EntryView {
    EntryView {
        path: nxp_entry_path(d, i),
        data: d.subrange(
            nxp_entry_data_off(d, i),
            nxp_entry_data_off(d, i) + nxp_entry_data_size(d, i),
        ),
        crc32: nxp_entry_crc(d, i) as u32,
    }
}

/// What a well-formed package `d` holds.
pub open spec fn nxp_view(d: Seq<u8>) -> PackageView {
    let recs = tlv_records(d, nxp_manifest_off(d), nxp_manifest_end(d));
    PackageView {
        name: tlv_text(d, recs, TAG_NAME),
        version: tlv_text(d, recs, TAG_VER),
        description: tlv_text(d, recs, TAG_DESC),
        ver_major: le16(d, 8) as u16,
        ver_minor: le16(d, 10) as u16,
        flags: le32(d, 12) as u32,
        header_crc: le32(d, 4) as u32,
        entries: Seq::new(nxp_entry_count(d) as nat, |i: int| nxp_entry_view(d, i)),
    }
}

/// A file read from a package.
pub struct ParsedEntry {
    pub path: String,
    pub data: Vec<u8>,
    pub crc32: u32,
}

impl View for ParsedEntry {
    type V = EntryView;

    open spec fn view(&self) -> EntryView {
        EntryView { path: self.path@, data: self.data@, crc32: self.crc32 }
    }
}

/// A package read from its bytes.
pub struct ParsedNxp {
    pub name: String,
    pub version: String,
    pub description: String,
    pub ver_major: u16,
    pub ver_minor: u16,
    pub flags: u32,
    pub header_crc: u32,
    pub entries: Vec<ParsedEntry>,
}

impl View for ParsedNxp {
    type V = PackageView;

    open spec fn view(&self) -> PackageView {
        PackageView {
            name: self.name@,
            version: self.version@,
            description: self.description@,
            ver_major: self.ver_major,
            ver_minor: self.ver_minor,
            flags: self.flags,
            header_crc: self.header_crc,
            entries: self.entries@.map_values(|e: ParsedEntry| e@),
        }
    }
}

/// Why a package could not be read.
pub enum NxpError {
    /// Fewer than 32 bytes.
    TooSmall,
    /// The first four bytes are not `NXP1`; the value read.
    BadMagic(u32),
    /// The manifest extends beyond the end of the package.
    ManifestOutOfBounds,
    /// The file table extends beyond the end of the package.
    FileTableOutOfBounds,
    /// The data of the entry with this path extends beyond the end of the package.
    EntryOutOfBounds(String),
}

/// The first entry whose data does not fit is entry `i`.
pub open spec fn nxp_first_bad_entry(d: Seq<u8>, i: int) -> bool {
    &&& 0 <= i < nxp_entry_count(d)
    &&& !nxp_entry_fits(d, i)
    &&& forall|j: int| 0 <= j < i ==> #[trigger] nxp_entry_fits(d, j)
}

/// The result of reading `d`, stated exactly.
pub open spec fn parse_nxp_result(d: Seq<u8>, r: Result<ParsedNxp, NxpError>) -> bool {
    match r {
        Ok(p) => nxp_well_formed(d) && p@ == nxp_view(d),
        Err(NxpError::TooSmall) => d.len() < 32,
        Err(NxpError::BadMagic(m)) => d.len() >= 32 && m == le32(d, 0) && m != MAGIC_NXP1,
        Err(NxpError::ManifestOutOfBounds) => nxp_header_ok(d) && !nxp_manifest_fits(d),
        Err(NxpError::FileTableOutOfBounds) => nxp_header_ok(d) && nxp_manifest_fits(d)
            && !nxp_table_fits(d),
        Err(NxpError::EntryOutOfBounds(path)) => {
            &&& nxp_header_ok(d)
            &&& nxp_manifest_fits(d)
            &&& nxp_table_fits(d)
            &&& exists|i: int| nxp_first_bad_entry(d, i) && path@ == nxp_entry_path(d, i)
        },
    }
}

/// Reads the manifest records in `[start, end)` and returns the name, version
/// and description: for each, the value of its last record, or the empty text.
fn parse_manifest(data: &[u8], start: usize, end: usize) -> (r: (String, String, String))
    requires
        start <= end <= data.len(),
    ensures
        r.0@ == tlv_text(data@, tlv_records(data@, start as int, end as int), TAG_NAME),
        r.1@ == tlv_text(data@, tlv_records(data@, start as int, end as int), TAG_VER),
        r.2@ == tlv_text(data@, tlv_records(data@, start as int, end as int), TAG_DESC),
{
    let ghost d = data@;
    let mut name = String::new();
    let mut version = String::new();
    let mut description = String::new();
    let ghost mut seen: Seq<Tlv> = seq![];
    let mut pos = start;
    while end - pos >= 8
        invariant
            start <= pos <= end <= data.len(),
            d == data@,
            tlv_records(d, start as int, end as int) == seen + tlv_records(d, pos as int, end as int),
            name@ == tlv_text(d, seen, TAG_NAME),
            version@ == tlv_text(d, seen, TAG_VER),
            description@ == tlv_text(d, seen, TAG_DESC),
        ensures
            tlv_records(d, pos as int, end as int) == Seq::<Tlv>::empty(),
            tlv_records(d, start as int, end as int) == seen + tlv_records(d, pos as int, end as int),
            name@ == tlv_text(d, seen, TAG_NAME),
            version@ == tlv_text(d, seen, TAG_VER),
            description@ == tlv_text(d, seen, TAG_DESC),
        decreases end - pos,
    {
        let tag = read_u32(data, pos);
        let length = read_u32(data, pos + 4) as usize;
        let vstart = pos + 8;
        if length > end - vstart {
            break;
        }
        let vend = vstart + length;
        let value = lossy_string(&data[vstart..vend]);
        let ghost rec = Tlv { tag: tag, start: vstart as int, len: length as int };
        proof {
            assert(tlv_records(d, pos as int, end as int) == seq![rec] + tlv_records(d, vend as int, end as int));
            assert(seen + tlv_records(d, pos as int, end as int) =~= seen.push(rec) + tlv_records(d, vend as int, end as int));
            assert(seen.push(rec).drop_last() =~= seen);
            assert(data@.subrange(vstart as int, vend as int) == d.subrange(rec.start, rec.start + rec.len));
            seen = seen.push(rec);
        }
        if tag == TAG_NAME {
            name = value;
        } else if tag == TAG_VER {
            version = value;
        } else if tag == TAG_DESC {
            description = value;
        }
        pos = vend;
    }
    (name, version, description)
}

/// Reads an NXP package.
pub fn parse_nxp(data: &[u8]) -> (r: Result<ParsedNxp, NxpError>)
    ensures
        parse_nxp_result(data@, r),
        nxp_well_formed(data@) ==> r is Ok,
{
    let ghost d = data@;
    if data.len() < 32 {
        return Err(NxpError::TooSmall);
    }
    let magic = read_u32(data, 0);
    if magic != MAGIC_NXP1 {
        return Err(NxpError::BadMagic(magic));
    }
    let header_crc = read_u32(data, 4);
    let ver_major = read_u16(data, 8);
    let ver_minor = read_u16(data, 10);
    let flags = read_u32(data, 12);
    let manifest_off = read_u32(data, 16);
    let manifest_sz = read_u32(data, 20);
    let entry_count = read_u32(data, 24);

    if manifest_off as u64 + manifest_sz as u64 > data.len() as u64 {
        return Err(NxpError::ManifestOutOfBounds);
    }
    let manifest_end = (manifest_off as u64 + manifest_sz as u64) as usize;
    let (name, version, description) = parse_manifest(data, manifest_off as usize, manifest_end);

    if manifest_end as u64 + entry_count as u64 * 32 > data.len() as u64 {
        return Err(NxpError::FileTableOutOfBounds);
    }
    let table_end = (manifest_end as u64 + entry_count as u64 * 32) as usize;
    let count = entry_count as usize;
    let pool = &data[table_end..data.len()];

    let mut entries: Vec<ParsedEntry> = Vec::new();
    let mut i: usize = 0;
    while i < count
        invariant
            d == data@,
            nxp_header_ok(d),
            nxp_manifest_fits(d),
            nxp_table_fits(d),
            manifest_end == nxp_manifest_end(d),
            table_end == nxp_table_end(d),
            count == nxp_entry_count(d),
            pool@ == d.subrange(table_end as int, d.len() as int),
            i <= count,
            entries@.len() == i,
            forall|k: int| 0 <= k < i ==> #[trigger] nxp_entry_fits(d, k),
            forall|k: int| 0 <= k < i ==> (#[trigger] entries@[k])@ == nxp_entry_view(d, k),
        decreases count - i,
    {
        let base = manifest_end + i * 32;
        let path_off = read_u32(data, base);
        let data_off = read_u32(data, base + 4);
        let data_sz = read_u32(data, base + 8);
        let entry_crc = read_u32(data, base + 12);
        let path = get_str_at(pool, path_off as usize);
        if data_off as u64 + data_sz as u64 > data.len() as u64 {
            assert(nxp_first_bad_entry(d, i as int));
            return Err(NxpError::EntryOutOfBounds(path));
        }
        let start = data_off as usize;
        let stop = start + data_sz as usize;
        let bytes = slice_to_vec(&data[start..stop]);
        let ghost entries_before = entries@;
        entries.push(ParsedEntry { path, data: bytes, crc32: entry_crc });
        proof {
            assert forall|k: int| 0 <= k < i + 1 implies (#[trigger] entries@[k])@ == nxp_entry_view(d, k) by {
                if k < i {
                    assert(entries@[k] == entries_before[k]);
                }
            }
        }
        i = i + 1;
    }
    let p = ParsedNxp {
        name,
        version,
        description,
        ver_major,
        ver_minor,
        flags,
        header_crc,
        entries,
    };
    assert(p@.entries =~= nxp_view(d).entries);
    Ok(p)
}

/// A file whose stored checksum does not match its contents.
pub struct CrcMismatch {
    pub path: String,
    pub expected: u32,
    pub actual: u32,
}

#[verifier::ext_equal]
pub struct CrcMismatchView {
    pub path: Seq<char>,
    pub expected: u32,
    pub actual: u32,
}

impl View for CrcMismatch {
    type V = CrcMismatchView;

    open spec fn view(&self) -> CrcMismatchView {
        CrcMismatchView { path: self.path@, expected: self.expected, actual: self.actual }
    }
}

/// The files, in order, whose stored checksum differs from the checksum of their data.
pub open spec fn crc_mismatches(es: Seq<EntryView>) -> Seq<CrcMismatchView>
    decreases es.len(),
{
    if es.len() == 0 {
        seq![]
    } else {
        let e = es.last();
        let rest = crc_mismatches(es.drop_last());
        if crc32(e.data) != e.crc32 {
            rest.push(CrcMismatchView { path: e.path, expected: e.crc32, actual: crc32(e.data) })
        } else {
            rest
        }
    }
}

/// Reading `d` succeeds and checking its checksums finds nothing wrong: the
/// header checksum matches and no file's checksum differs from its data's.
pub open spec fn nxp_verifies(d: Seq<u8>) -> bool {
    &&& nxp_well_formed(d)
    &&& crc32(d.subrange(8, 32)) == le32(d, 4)
    &&& crc_mismatches(nxp_view(d).entries).len() == 0
}

/// The outcome of checking the checksums of a package.
pub enum VerifyOutcome {
    /// The header checksum stored in the package and the one computed over header bytes 8..32.
    HeaderMismatch { expected: u32, actual: u32 },
    /// The header checksum matches; the files whose checksum does not.
    Checked { mismatches: Vec<CrcMismatch> },
}

/// Checks the header checksum of the package `data`, read as `parsed`, and
/// then the checksum of every file.
pub fn verify_nxp(data: &[u8], parsed: &ParsedNxp) -> (r: VerifyOutcome)
    requires
        data@.len() >= 32,
    ensures
        match r {
            VerifyOutcome::HeaderMismatch { expected, actual } => {
                &&& expected == parsed.header_crc
                &&& actual == crc32(data@.subrange(8, 32))
                &&& expected != actual
            },
            VerifyOutcome::Checked { mismatches } => {
                &&& crc32(data@.subrange(8, 32)) == parsed.header_crc
                &&& mismatches@.map_values(|m: CrcMismatch| m@) == crc_mismatches(parsed@.entries)
            },
        },
{
    let hdr_crc = crc32_calc(&data[8..32]);
    if hdr_crc != parsed.header_crc {
        return VerifyOutcome::HeaderMismatch { expected: parsed.header_crc, actual: hdr_crc };
    }
    let ghost es = parsed@.entries;
    let mut mismatches: Vec<CrcMismatch> = Vec::new();
    let mut i: usize = 0;
    while i < parsed.entries.len()
        invariant
            es == parsed@.entries,
            i <= es.len(),
            mismatches@.map_values(|m: CrcMismatch| m@) == crc_mismatches(es.take(i as int)),
        decreases es.len() - i,
    {
        let entry = &parsed.entries[i];
        let actual = crc32_calc(entry.data.as_slice());
        proof {
            assert(es.take(i + 1).drop_last() =~= es.take(i as int));
            assert(es.take(i + 1).last() == entry@);
        }
        if actual != entry.crc32 {
            let ghost before = mismatches@;
            mismatches.push(CrcMismatch { path: entry.path.clone(), expected: entry.crc32, actual });
            assert(mismatches@.map_values(|m: CrcMismatch| m@) =~= before.map_values(|m: CrcMismatch| m@).push(
                CrcMismatchView { path: entry.path@, expected: entry.crc32, actual },
            ));
        }
        i = i + 1;
    }
    assert(es.take(i as int) =~= es);
    VerifyOutcome::Checked { mismatches }
}

/// The total size of the data of all files.
pub open spec fn total_data(es: Seq<EntryView>) -> int
    decreases es.len(),
{
    if es.len() == 0 {
        0
    } else {
        total_data(es.drop_last()) + es.last().data.len()
    }
}

/// The total data size is zero for no files, and adding a file at the end
/// adds exactly the size of its data.
pub proof fn lemma_total_data_sum(es: Seq<EntryView>, e: EntryView)
    ensures
        total_data(Seq::<EntryView>::empty()) == 0,
        total_data(es.push(e)) == total_data(es) + e.data.len(),
{
    assert(es.push(e).drop_last() =~= es);
}

/// Adds up the sizes of the data of all files of a package.
pub fn total_data_size(parsed: &ParsedNxp) -> (t: u128)
    ensures
        t == total_data(parsed@.entries),
{
    let ghost es = parsed@.entries;
    let mut total: u128 = 0;
    let mut i: usize = 0;
    let n = parsed.entries.len();
    while i < n
        invariant
            es == parsed@.entries,
            n == es.len(),
            i <= es.len(),
            total == total_data(es.take(i as int)),
            total <= i * 0x1_0000_0000_0000_0000,
        decreases es.len() - i,
    {
        let len = parsed.entries[i].data.len();
        proof {
            assert(es.take(i + 1).drop_last() =~= es.take(i as int));
            assert(es.take(i + 1).last() == parsed.entries@[i as int]@);
        }
        total = total + len as u128;
        i = i + 1;
    }
    assert(es.take(i as int) =~= es);
    total
}

/// Whether the package's flags mark it as signed (bit 0).
pub fn is_signed(parsed: &ParsedNxp) -> (b: bool)
    ensures
        b == (parsed.flags & 1 != 0),
{
    parsed.flags & 1 != 0
}

} // verus!
