//! What the dump tool extracts from a file: hex rows, printable strings,
//! loadable segments and `R_X86_64_RELATIVE` relocations.

use vstd::prelude::*;
use vstd::slice::slice_to_vec;
use crate::bytes::{le16, le32, le64, le64_signed, read_i64, read_u16, read_u64};
use crate::elf::{program_headers, ProgramHeader, PT_DYNAMIC, PT_LOAD};
use crate::notes::file_ph_list;
use crate::seqs::flatten;
use crate::text::{decoded_text, lossy_string};

verus! {

/// The dump shows at most this many bytes.
pub const HEX_DUMP_LIMIT: usize = 4096;
/// Strings are searched for in at most this many bytes.
pub const STRINGS_SCAN_LIMIT: usize = 65536;
/// At most this many strings are listed.
pub const STRINGS_MAX_COUNT: usize = 100;
/// At most this many relocations of a table are examined.
pub const RELA_SHOWN: u64 = 64;
/// Relocation type `R_X86_64_RELATIVE`.
pub const R_X86_64_RELATIVE: u64 = 8;

pub open spec fn min_int(a: int, b: int) -> int {
    if a < b { a } else { b }
}

/// A row of the hex dump: its offset and its (up to sixteen) bytes.
pub struct HexRow {
    pub offset: usize,
    pub bytes: Vec<u8>,
}

#[verifier::ext_equal]
pub struct HexRowView {
    pub offset: int,
    pub bytes: Seq<u8>,
}

impl View for HexRow {
    type V = HexRowView;

    open spec fn view(&self) -> HexRowView {
        HexRowView { offset: self.offset as int, bytes: self.bytes@ }
    }
}

/// The bytes the hex dump shows.
pub open spec fn hex_shown(d: Seq<u8>) -> int {
    min_int(d.len() as int, HEX_DUMP_LIMIT as int)
}

/// The rows of the hex dump: the shown bytes sixteen at a time.
pub open spec fn hex_rows_spec(d: Seq<u8>) -> Seq<HexRowView> {
    Seq::new(
        ((hex_shown(d) + 15) / 16) as nat,
        |k: int| HexRowView { offset: 16 * k, bytes: d.subrange(16 * k, min_int(16 * k + 16, hex_shown(d))) },
    )
}

/// Splits the first 4096 bytes of `data` into rows of sixteen.
pub fn hex_rows(data: &[u8]) -> (rows: Vec<HexRow>)
    ensures
        rows@.map_values(|r: HexRow| r@) == hex_rows_spec(data@),
{
    let max = if data.len() < HEX_DUMP_LIMIT { data.len() } else { HEX_DUMP_LIMIT };
    let mut rows: Vec<HexRow> = Vec::new();
    let mut k: usize = 0;
    while 16 * k < max
        invariant
            max == hex_shown(data@),
            max <= HEX_DUMP_LIMIT,
            16 * k < max + 16,
            rows@.len() == k,
            forall|j: int| 0 <= j < rows@.len() ==> (#[trigger] rows@[j])@ == hex_rows_spec(data@)[j],
        decreases max + 16 - 16 * k,
    {
        let off = 16 * k;
        let end = if off + 16 < max { off + 16 } else { max };
        let bytes = slice_to_vec(&data[off..end]);
        rows.push(HexRow { offset: off, bytes });
        k = k + 1;
    }
    assert(rows@.len() == (hex_shown(data@) + 15) / 16);
    assert(rows@.map_values(|r: HexRow| r@) =~= hex_rows_spec(data@));
    rows
}

/// How many bytes the hex dump leaves out.
pub fn hex_omitted(len: usize) -> (n: usize)
    ensures
        n == if len > HEX_DUMP_LIMIT { len - HEX_DUMP_LIMIT } else { 0 },
{
    if len > HEX_DUMP_LIMIT {
        len - HEX_DUMP_LIMIT
    } else {
        0
    }
}

/// The character the hex dump shows for a byte: printable ASCII as itself, else `.`.
pub fn dump_char(b: u8) -> (c: char)
    ensures
        c == (if printable(b) { b as char } else { '.' }),
{
    if printable_byte(b) {
        b as char
    } else {
        '.'
    }
}

/// A printable byte: an ASCII graphic character or a space.
pub open spec fn printable(b: u8) -> bool {
    (0x21 <= b && b <= 0x7e) || b == 0x20
}

fn printable_byte(b: u8) -> (r: bool)
    ensures
        r == printable(b),
{
    (0x21 <= b && b <= 0x7e) || b == 0x20
}

/// Where the run of printable bytes that starts at `i` ends (before `max`).
pub open spec fn run_end(d: Seq<u8>, max: int, i: int) -> int
    decreases max - i,
{
    if i < 0 || i >= max || !printable(d[i]) {
        i
    } else {
        run_end(d, max, i + 1)
    }
}

pub proof fn lemma_run_end_bounds(d: Seq<u8>, max: int, i: int)
    requires
        0 <= i <= max,
    ensures
        i <= run_end(d, max, i) <= max,
        i < max && printable(d[i]) ==> i < run_end(d, max, i),
    decreases max - i,
{
    if i < max && printable(d[i]) {
        lemma_run_end_bounds(d, max, i + 1);
    }
}

/// The runs of at least four printable bytes from `i` on, before `max`, as
/// (start, end) pairs.
pub open spec fn strings_from(d: Seq<u8>, max: int, i: int) -> Seq<(int, int)>
    decreases max - i,
{
    if i < 0 || i >= max {
        seq![]
    } else if printable(d[i]) {
        let e = run_end(d, max, i);
        proof {
            lemma_run_end_bounds(d, max, i);
        }
        (if e - i >= 4 { seq![(i, e)] } else { seq![] }) + strings_from(d, max, e)
    } else {
        strings_from(d, max, i + 1)
    }
}

/// A printable string found by the dump: where it starts and its text.
pub struct FoundString {
    pub offset: usize,
    pub text: String,
}

/// The strings listing: at most 100 strings, and whether the listing stopped there.
pub struct StringsReport {
    pub found: Vec<FoundString>,
    pub truncated: bool,
}

/// The runs the listing shows: the first hundred of those in the first 64 KiB.
pub open spec fn strings_shown(d: Seq<u8>) -> Seq<(int, int)> {
    let all = strings_from(d, min_int(d.len() as int, STRINGS_SCAN_LIMIT as int), 0);
    all.take(min_int(all.len() as int, STRINGS_MAX_COUNT as int))
}

/// Lists the runs of at least four printable bytes in the first 64 KiB of
/// `data`, at most 100 of them; `truncated` is set when 100 were listed.
pub fn find_strings(data: &[u8]) -> (r: StringsReport)
    ensures
        r.found@.len() == strings_shown(data@).len(),
        forall|k: int| 0 <= k < r.found@.len() ==> {
            let (s, e) = #[trigger] strings_shown(data@)[k];
            &&& r.found@[k].offset == s
            &&& r.found@[k].text@ == decoded_text(data@.subrange(s, e))
        },
        r.truncated == (r.found@.len() == STRINGS_MAX_COUNT),
{
    let ghost d = data@;
    let max = if data.len() < STRINGS_SCAN_LIMIT { data.len() } else { STRINGS_SCAN_LIMIT };
    let ghost all = strings_from(d, max as int, 0);
    let ghost mut seen: Seq<(int, int)> = seq![];
    let mut found: Vec<FoundString> = Vec::new();
    let mut i: usize = 0;
    while i < max && found.len() < STRINGS_MAX_COUNT
        invariant
            d == data@,
            max == min_int(d.len() as int, STRINGS_SCAN_LIMIT as int),
            max <= data.len(),
            i <= max,
            all == strings_from(d, max as int, 0),
            all == seen + strings_from(d, max as int, i as int),
            found@.len() == seen.len(),
            found@.len() <= STRINGS_MAX_COUNT,
            forall|k: int| 0 <= k < seen.len() ==> {
                let (s, e) = #[trigger] seen[k];
                &&& found@[k].offset == s
                &&& found@[k].text@ == decoded_text(d.subrange(s, e))
            },
        decreases max - i,
    {
        if printable_byte(data[i]) {
            let start = i;
            proof {
                lemma_run_end_bounds(d, max as int, start as int);
            }
            while i < max && printable_byte(data[i])
                invariant
                    d == data@,
                    start < i || i == start,
                    start <= i <= max,
                    max <= data.len(),
                    run_end(d, max as int, start as int) == run_end(d, max as int, i as int),
                decreases max - i,
            {
                i = i + 1;
            }
            let ghost rest = strings_from(d, max as int, i as int);
            assert(strings_from(d, max as int, start as int) == (if i - start >= 4 {
                seq![(start as int, i as int)]
            } else {
                seq![]
            }) + rest);
            if i - start >= 4 {
                let text = lossy_string(&data[start..i]);
                let ghost found_before = found@;
                found.push(FoundString { offset: start, text });
                proof {
                    assert(seen + strings_from(d, max as int, start as int) =~= seen.push((start as int, i as int)) + rest);
                    seen = seen.push((start as int, i as int));
                    assert forall|k: int| 0 <= k < seen.len() implies {
                        let (s, e) = #[trigger] seen[k];
                        &&& found@[k].offset == s
                        &&& found@[k].text@ == decoded_text(d.subrange(s, e))
                    } by {
                        if k < seen.len() - 1 {
                            assert(found@[k] == found_before[k]);
                        }
                    }
                }
            } else {
                assert(seen + strings_from(d, max as int, start as int) =~= seen + rest);
            }
        } else {
            i = i + 1;
        }
    }
    proof {
        if found@.len() < STRINGS_MAX_COUNT {
            assert(strings_from(d, max as int, i as int) == Seq::<(int, int)>::empty());
            assert(all =~= seen);
        }
        assert(all.take(min_int(all.len() as int, STRINGS_MAX_COUNT as int)) =~= seen);
    }
    let truncated = found.len() == STRINGS_MAX_COUNT;
    StringsReport { found, truncated }
}

/// The loadable segments among `phs`, in order.
pub open spec fn load_segments_of(phs: Seq<ProgramHeader>) -> Seq<ProgramHeader>
    decreases phs.len(),
{
    if phs.len() == 0 {
        seq![]
    } else {
        let rest = load_segments_of(phs.drop_last());
        if phs.last().p_type == PT_LOAD {
            rest.push(phs.last())
        } else {
            rest
        }
    }
}

/// The loadable (`PT_LOAD`) segments of an ELF64 file, in program-header order.
pub fn load_segments(data: &[u8]) -> (segs: Vec<ProgramHeader>)
    requires
        data@.len() >= 58,
    ensures
        segs@ == load_segments_of(file_ph_list(data@)),
{
    let phs = program_headers(data, read_u64(data, 32), read_u16(data, 54), read_u16(data, 56));
    let mut segs: Vec<ProgramHeader> = Vec::new();
    let mut i: usize = 0;
    while i < phs.len()
        invariant
            phs@ == file_ph_list(data@),
            i <= phs@.len(),
            segs@ == load_segments_of(phs@.take(i as int)),
        decreases phs@.len() - i,
    {
        let ph = phs[i];
        proof {
            assert(phs@.take(i + 1).drop_last() =~= phs@.take(i as int));
            assert(phs@.take(i + 1).last() == ph);
        }
        if ph.p_type == PT_LOAD {
            segs.push(ph);
        }
        i = i + 1;
    }
    assert(phs@.take(i as int) =~= phs@);
    segs
}

/// Whether a file of `len` bytes is too large for an NXE slot.
pub fn exceeds_nxe_slot(len: usize) -> (b: bool)
    ensures
        b == (len > crate::elf::NXE_MAX_SIZE),
{
    len > crate::elf::NXE_MAX_SIZE
}

/// Where the relocation table is, its total size and its entry size, as
/// found in the dynamic entries from `pos` on (before `end`), starting from
/// the values already found; an entry with tag 0 ends the list.
pub open spec fn dyn_scan(d: Seq<u8>, pos: int, end: int, addr: int, size: int, ent: int) -> (int, int, int)
    decreases end - pos,
{
    if pos + 16 > end {
        (addr, size, ent)
    } else {
        let tag = le64_signed(d, pos);
        let val = le64(d, pos + 8);
        if tag == 7 {
            dyn_scan(d, pos + 16, end, val, size, ent)
        } else if tag == 8 {
            dyn_scan(d, pos + 16, end, addr, val, ent)
        } else if tag == 9 {
            dyn_scan(d, pos + 16, end, addr, size, val)
        } else if tag == 0 {
            (addr, size, ent)
        } else {
            dyn_scan(d, pos + 16, end, addr, size, ent)
        }
    }
}

/// A relative relocation: its index in the table, the place it patches and the addend.
#[derive(Clone, Copy, PartialEq, Eq, Debug)]
pub struct RelaEntry {
    pub index: u64,
    pub offset: u64,
    pub addend: i64,
}

/// The relative relocations among entries `j` to `limit` of the table at
/// `addr` with entries every `ent` bytes; the walk stops at the first entry
/// that does not fit in the file.
pub open spec fn rela_list(d: Seq<u8>, addr: int, ent: int, j: int, limit: int) -> Seq<RelaEntry>
    decreases limit - j,
{
    if j < 0 || j >= limit || addr + j * ent + 24 > d.len() {
        seq![]
    } else {
        let off = addr + j * ent;
        let rest = rela_list(d, addr, ent, j + 1, limit);
        if le64(d, off + 8) % 0x1_0000_0000 == R_X86_64_RELATIVE {
            seq![RelaEntry { index: j as u64, offset: le64(d, off) as u64, addend: le64_signed(d, off + 16) as i64 }]
                + rest
        } else {
            rest
        }
    }
}

/// The relocation table of a dynamic segment as the dump shows it.
pub struct RelaTable {
    /// Number of entries: table size over entry size.
    pub count: u64,
    /// Where the table is.
    pub addr: u64,
    /// The relative relocations among the first 64 entries.
    pub entries: Vec<RelaEntry>,
    /// How many entries beyond the first 64 are not examined.
    pub more: u64,
}

#[verifier::ext_equal]
pub struct RelaTableView {
    pub count: u64,
    pub addr: u64,
    pub entries: Seq<RelaEntry>,
    pub more: u64,
}

impl View for RelaTable {
    type V = RelaTableView;

    open spec fn view(&self) -> RelaTableView {
        RelaTableView { count: self.count, addr: self.addr, entries: self.entries@, more: self.more }
    }
}

/// The relocation table of the dynamic segment described by `ph`, when its
/// dynamic entries give a table size and an entry size that are not zero.
pub open spec fn rela_table_of(d: Seq<u8>, ph: ProgramHeader) -> Option<RelaTableView> {
    let (addr, size, ent) = dyn_scan(d, ph.p_offset as int, ph.p_offset + ph.p_filesz, 0, 0, 0);
    if size > 0 && ent > 0 {
        let count = size / ent;
        Some(RelaTableView {
            count: count as u64,
            addr: addr as u64,
            entries: rela_list(d, addr, ent, 0, min_int(count, RELA_SHOWN as int)),
            more: if count > RELA_SHOWN { (count - RELA_SHOWN) as u64 } else { 0 },
        })
    } else {
        None
    }
}

/// The relocation tables of the dynamic segments of `phs` from entry `i` on;
/// a dynamic segment that does not lie within the file ends the search.
pub open spec fn rela_tables(d: Seq<u8>, phs: Seq<ProgramHeader>, i: int) -> Seq<RelaTableView>
    decreases phs.len() - i,
{
    if i < 0 || i >= phs.len() {
        seq![]
    } else if phs[i].p_type != PT_DYNAMIC {
        rela_tables(d, phs, i + 1)
    } else if phs[i].p_offset + phs[i].p_filesz > d.len() {
        seq![]
    } else {
        match rela_table_of(d, phs[i]) {
            Some(t) => seq![t] + rela_tables(d, phs, i + 1),
            None => rela_tables(d, phs, i + 1),
        }
    }
}

fn scan_dynamic(data: &[u8], start: usize, end: usize) -> (r: (u64, u64, u64))
    requires
        start <= end <= data@.len(),
    ensures
        (r.0 as int, r.1 as int, r.2 as int) == dyn_scan(data@, start as int, end as int, 0, 0, 0),
{
    let ghost d = data@;
    let mut addr: u64 = 0;
    let mut size: u64 = 0;
    let mut ent: u64 = 0;
    let mut pos = start;
    while pos <= end && end - pos >= 16
        invariant
            d == data@,
            start <= pos,
            end <= data@.len(),
            dyn_scan(d, start as int, end as int, 0, 0, 0) == dyn_scan(d, pos as int, end as int, addr as int, size as int, ent as int),
        ensures
            dyn_scan(d, start as int, end as int, 0, 0, 0) == (addr as int, size as int, ent as int),
        decreases end - pos,
    {
        let tag = read_i64(data, pos);
        let val = read_u64(data, pos + 8);
        if tag == 7 {
            addr = val;
        } else if tag == 8 {
            size = val;
        } else if tag == 9 {
            ent = val;
        } else if tag == 0 {
            break;
        }
        pos = pos + 16;
    }
    (addr, size, ent)
}

fn rela_entries(data: &[u8], addr: u64, ent: u64, limit: u64) -> (r: Vec<RelaEntry>)
    requires
        limit <= RELA_SHOWN,
    ensures
        r@ == rela_list(data@, addr as int, ent as int, 0, limit as int),
{
    let ghost d = data@;
    let ghost mut seen: Seq<RelaEntry> = seq![];
    let mut r: Vec<RelaEntry> = Vec::new();
    let mut j: u64 = 0;
    while j < limit
        invariant
            d == data@,
            limit <= RELA_SHOWN,
            j <= limit,
            r@ == seen,
            rela_list(d, addr as int, ent as int, 0, limit as int) == seen + rela_list(d, addr as int, ent as int, j as int, limit as int),
        ensures
            rela_list(d, addr as int, ent as int, 0, limit as int) == seen,
        decreases limit - j,
    {
        assert(j as int * ent as int <= 64 * 0xFFFF_FFFF_FFFF_FFFF) by (nonlinear_arith)
            requires
                j <= 64,
                ent <= 0xFFFF_FFFF_FFFF_FFFF,
        ;
        let off: u128 = addr as u128 + j as u128 * ent as u128;
        if off + 24 > data.len() as u128 {
            assert(rela_list(d, addr as int, ent as int, j as int, limit as int) == Seq::<RelaEntry>::empty());
            assert(seen + Seq::<RelaEntry>::empty() =~= seen);
            break;
        }
        let o = off as usize;
        let r_offset = read_u64(data, o);
        let r_info = read_u64(data, o + 8);
        let r_addend = read_i64(data, o + 16);
        let ghost rest = rela_list(d, addr as int, ent as int, j + 1, limit as int);
        assert((r_info & 0xFFFF_FFFF) == r_info % 0x1_0000_0000) by (bit_vector);
        if (r_info & 0xFFFF_FFFF) == R_X86_64_RELATIVE {
            let e = RelaEntry { index: j, offset: r_offset, addend: r_addend };
            r.push(e);
            proof {
                assert(seen + rela_list(d, addr as int, ent as int, j as int, limit as int) =~= seen.push(e) + rest);
                seen = seen.push(e);
            }
        }
        j = j + 1;
    }
    if j == limit {
        assert(seen + rela_list(d, addr as int, ent as int, j as int, limit as int) =~= seen);
    }
    r
}

/// Finds the relocation tables named by the dynamic segments of an ELF64
/// file, in program-header order, and in each the relative relocations among
/// its first 64 entries; a dynamic segment that does not lie within the file
/// ends the search.
pub fn relocations(data: &[u8]) -> (tables: Vec<RelaTable>)
    requires
        data@.len() >= 58,
    ensures
        tables@.map_values(|t: RelaTable| t@) == rela_tables(data@, file_ph_list(data@), 0),
{
    let ghost d = data@;
    let phs = program_headers(data, read_u64(data, 32), read_u16(data, 54), read_u16(data, 56));
    let ghost mut seen: Seq<RelaTableView> = seq![];
    let mut tables: Vec<RelaTable> = Vec::new();
    let mut i: usize = 0;
    while i < phs.len()
        invariant
            d == data@,
            phs@ == file_ph_list(d),
            i <= phs@.len(),
            tables@.map_values(|t: RelaTable| t@) == seen,
            rela_tables(d, phs@, 0) == seen + rela_tables(d, phs@, i as int),
        ensures
            rela_tables(d, phs@, 0) == seen,
            tables@.map_values(|t: RelaTable| t@) == seen,
        decreases phs@.len() - i,
    {
        let ph = phs[i];
        if ph.p_type == PT_DYNAMIC {
            if ph.p_offset as u128 + ph.p_filesz as u128 > data.len() as u128 {
                assert(seen + rela_tables(d, phs@, i as int) =~= seen);
                break;
            }
            let start = ph.p_offset as usize;
            let end = (ph.p_offset as u128 + ph.p_filesz as u128) as usize;
            let (rela_addr, rela_size, rela_ent) = scan_dynamic(data, start, end);
            let ghost rest = rela_tables(d, phs@, i + 1);
            if rela_size > 0 && rela_ent > 0 {
                let count = rela_size / rela_ent;
                let limit = if count < RELA_SHOWN { count } else { RELA_SHOWN };
                let entries = rela_entries(data, rela_addr, rela_ent, limit);
                let more = if count > RELA_SHOWN { count - RELA_SHOWN } else { 0 };
                let t = RelaTable { count, addr: rela_addr, entries, more };
                let ghost tv = t@;
                assert(rela_table_of(d, ph) == Some(tv));
                let ghost before = tables@.map_values(|t: RelaTable| t@);
                tables.push(t);
                proof {
                    assert(tables@.map_values(|t: RelaTable| t@) =~= before.push(tv));
                    assert(seen + rela_tables(d, phs@, i as int) =~= seen.push(tv) + rest);
                    seen = seen.push(tv);
                }
            }
        }
        i = i + 1;
    }
    if i == phs.len() {
        assert(seen + rela_tables(d, phs@, i as int) =~= seen);
    }
    tables
}

/// The bytes of the rows of the hex dump.
pub open spec fn hex_row_bytes(d: Seq<u8>) -> Seq<Seq<u8>> {
    hex_rows_spec(d).map_values(|r: HexRowView| r.bytes)
}

proof fn lemma_hex_rows_prefix(d: Seq<u8>, k: int)
    requires
        0 <= k <= hex_rows_spec(d).len(),
    ensures
        flatten(hex_row_bytes(d).take(k)) == d.take(min_int(16 * k, hex_shown(d))),
    decreases k,
{
    let rows = hex_row_bytes(d);
    if k == 0 {
        assert(rows.take(0) =~= Seq::<Seq<u8>>::empty());
        assert(d.take(0) =~= Seq::<u8>::empty());
    } else {
        lemma_hex_rows_prefix(d, k - 1);
        assert(rows.take(k).drop_last() =~= rows.take(k - 1));
        assert(16 * (k - 1) < hex_shown(d));
        assert(d.take(min_int(16 * k, hex_shown(d))) =~= d.take(16 * (k - 1)) + rows[k - 1]);
    }
}

/// Read one after another, the rows of the hex dump give exactly the bytes it
/// shows: the first 4096 bytes of the file, or all of a smaller file.
pub proof fn lemma_hex_rows_cover(d: Seq<u8>)
    ensures
        flatten(hex_row_bytes(d)) == d.take(hex_shown(d)),
{
    let n = hex_rows_spec(d).len() as int;
    lemma_hex_rows_prefix(d, n);
    assert(hex_row_bytes(d).take(n) =~= hex_row_bytes(d));
    assert(min_int(16 * n, hex_shown(d)) == hex_shown(d));
}

/// A listed run: at least four bytes, all printable, ending at the limit or
/// at a byte that is not printable.
pub open spec fn is_listed_run(d: Seq<u8>, max: int, r: (int, int)) -> bool {
    &&& 0 <= r.0
    &&& r.0 + 4 <= r.1 <= max
    &&& forall|j: int| r.0 <= j < r.1 ==> #[trigger] printable(d[j])
    &&& (r.1 == max || !printable(d[r.1]))
}

proof fn lemma_run_end_printable(d: Seq<u8>, max: int, i: int)
    requires
        0 <= i <= max,
    ensures
        forall|j: int| i <= j < run_end(d, max, i) ==> #[trigger] printable(d[j]),
        run_end(d, max, i) == max || !printable(d[run_end(d, max, i)]),
    decreases max - i,
{
    lemma_run_end_bounds(d, max, i);
    if i < max && printable(d[i]) {
        lemma_run_end_printable(d, max, i + 1);
    }
}

proof fn lemma_strings_from_runs(d: Seq<u8>, max: int, i: int)
    requires
        0 <= i <= max <= d.len(),
    ensures
        forall|k: int| 0 <= k < strings_from(d, max, i).len() ==> is_listed_run(
            d,
            max,
            #[trigger] strings_from(d, max, i)[k],
        ),
    decreases max - i,
{
    if i < max {
        if printable(d[i]) {
            let e = run_end(d, max, i);
            lemma_run_end_bounds(d, max, i);
            lemma_run_end_printable(d, max, i);
            lemma_strings_from_runs(d, max, e);
            let head: Seq<(int, int)> = if e - i >= 4 { seq![(i, e)] } else { seq![] };
            let rest = strings_from(d, max, e);
            assert(strings_from(d, max, i) == head + rest);
            assert forall|k: int| 0 <= k < strings_from(d, max, i).len() implies is_listed_run(
                d,
                max,
                #[trigger] strings_from(d, max, i)[k],
            ) by {
                if k >= head.len() {
                    assert(strings_from(d, max, i)[k] == rest[k - head.len()]);
                }
            }
        } else {
            lemma_strings_from_runs(d, max, i + 1);
            assert(strings_from(d, max, i) == strings_from(d, max, i + 1));
        }
    } else {
        assert(strings_from(d, max, i) == Seq::<(int, int)>::empty());
    }
}

/// Every string the listing shows is at least four characters long, made
/// only of printable characters, and runs as far as the printable bytes do
/// (up to the end of the searched area).
pub proof fn lemma_listed_strings_are_runs(d: Seq<u8>)
    ensures
        forall|k: int| 0 <= k < strings_shown(d).len() ==> is_listed_run(
            d,
            min_int(d.len() as int, STRINGS_SCAN_LIMIT as int),
            #[trigger] strings_shown(d)[k],
        ),
{
    let max = min_int(d.len() as int, STRINGS_SCAN_LIMIT as int);
    lemma_strings_from_runs(d, max, 0);
    let all = strings_from(d, max, 0);
    assert forall|k: int| 0 <= k < strings_shown(d).len() implies is_listed_run(
        d,
        max,
        #[trigger] strings_shown(d)[k],
    ) by {
        assert(strings_shown(d)[k] == all[k]);
    }
}

proof fn lemma_rela_list_len(d: Seq<u8>, addr: int, ent: int, j: int, limit: int)
    requires
        0 <= j,
    ensures
        rela_list(d, addr, ent, j, limit).len() <= if limit > j { limit - j } else { 0 },
    decreases limit - j,
{
    if j < limit && addr + j * ent + 24 <= d.len() {
        lemma_rela_list_len(d, addr, ent, j + 1, limit);
    }
}

/// Each relocation table lists at most 64 relocations.
pub proof fn lemma_rela_table_bounded(d: Seq<u8>, ph: ProgramHeader)
    ensures
        rela_table_of(d, ph) matches Some(t) ==> t.entries.len() <= RELA_SHOWN,
{
    let (addr, size, ent) = dyn_scan(d, ph.p_offset as int, ph.p_offset + ph.p_filesz, 0, 0, 0);
    if size > 0 && ent > 0 {
        lemma_rela_list_len(d, addr, ent, 0, min_int(size / ent, RELA_SHOWN as int));
    }
}

/// The loadable segments are exactly the program headers of type `PT_LOAD`,
/// in order: every other program header is left out, wherever it stands.
pub proof fn lemma_load_segments_filter(phs: Seq<ProgramHeader>)
    ensures
        load_segments_of(phs) == phs.filter(|p: ProgramHeader| p.p_type == PT_LOAD),
    decreases phs.len(),
{
    reveal(Seq::filter);
    if phs.len() > 0 {
        lemma_load_segments_filter(phs.drop_last());
    }
}

} // verus!
