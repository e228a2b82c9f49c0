//! ELF notes and the NeoDOS metadata block they carry.
//!
//! A note is a 12-byte header (name size, descriptor size, type, all u32),
//! the name padded to four bytes, then the descriptor padded to four bytes.
//! The NeoDOS note's descriptor is a list of records: a u16 tag, a u16
//! length, then that many value bytes.

use vstd::prelude::*;
use vstd::slice::slice_to_vec;
use crate::bytes::{le16, le32, le64, read_u16, read_u32, read_u64, bytes_match_at};
use crate::elf::{ph_list, program_headers, ProgramHeader, PT_NOTE};
use crate::text::{decoded_text, lossy_string};
use crate::names::{subsystem_label, subsystem_name, manifest_flags_label, manifest_flags_text};
use vstd::string::StringExecFns;

verus! {

/// `x` rounded up to a multiple of four.
pub open spec fn align4_spec(x: int) -> int {
    (x + 3) / 4 * 4
}

/// The descriptor of the first note from `pos` on whose name is `target`
/// (the name size counts one terminating byte) and whose descriptor lies
/// within `seg`. Scanning stops when no complete note header is left.
pub open spec fn note_scan(seg: Seq<u8>, target: Seq<u8>, pos: int) -> Option<Seq<u8>>
    decreases seg.len() - pos,
{
    if pos < 0 || pos + 12 > seg.len() {
        None
    } else {
        let namesz = le32(seg, pos);
        let descsz = le32(seg, pos + 4);
        let name_start = pos + 12;
        let desc_start = name_start + align4_spec(namesz);
        let next = desc_start + align4_spec(descsz);
        if namesz == target.len() + 1 && name_start + namesz <= seg.len() && seg.subrange(
            name_start,
            name_start + target.len(),
        ) == target && desc_start + descsz <= seg.len() {
            Some(seg.subrange(desc_start, desc_start + descsz))
        } else if next <= seg.len() {
            note_scan(seg, target, next)
        } else {
            None
        }
    }
}

/// Finds the descriptor of the first note in `segment` named `target_name`.
pub fn scan_notes(segment: &[u8], target_name: &[u8]) -> (r: Option<Vec<u8>>)
    ensures
        match r {
            Some(v) => note_scan(segment@, target_name@, 0) == Some(v@),
            None => note_scan(segment@, target_name@, 0) is None,
        },
{
    let ghost seg = segment@;
    let ghost target = target_name@;
    let len = segment.len() as u128;
    let tlen = target_name.len() as u128;
    let mut pos: u128 = 0;
    while pos + 12 <= len
        invariant
            seg == segment@,
            target == target_name@,
            len == seg.len(),
            len <= usize::MAX,
            tlen == target.len(),
            tlen <= usize::MAX,
            pos <= len,
            note_scan(seg, target, 0) == note_scan(seg, target, pos as int),
        decreases len - pos,
    {
        let p = pos as usize;
        let namesz = read_u32(segment, p) as u128;
        let descsz = read_u32(segment, p + 4) as u128;
        let name_start = pos + 12;
        let desc_start = name_start + (namesz + 3) / 4 * 4;
        let next = desc_start + (descsz + 3) / 4 * 4;
        if namesz == tlen + 1 && name_start + namesz <= len {
            if bytes_match_at(segment, name_start as usize, target_name) && desc_start + descsz <= len {
                let desc = slice_to_vec(&segment[desc_start as usize..(desc_start + descsz) as usize]);
                return Some(desc);
            }
        }
        if next > len {
            return None;
        }
        pos = next;
    }
    None
}

/// `NeoDOS`, the name of the note that carries the metadata block.
pub open spec fn neodos_name() -> Seq<u8> {
    seq![0x4eu8, 0x65, 0x6f, 0x44, 0x4f, 0x53]
}

/// The descriptor of the first NeoDOS note found in the note segments of
/// `phs`, from entry `i` on; note segments that do not lie within `d` are skipped.
pub open spec fn note_search(d: Seq<u8>, phs: Seq<ProgramHeader>, i: int) -> Option<Seq<u8>>
    decreases phs.len() - i,
{
    if i < 0 || i >= phs.len() {
        None
    } else {
        let ph = phs[i];
        if ph.p_type == PT_NOTE && ph.p_offset + ph.p_filesz <= d.len() {
            match note_scan(d.subrange(ph.p_offset as int, ph.p_offset + ph.p_filesz), neodos_name(), 0) {
                Some(n) => Some(n),
                None => note_search(d, phs, i + 1),
            }
        } else {
            note_search(d, phs, i + 1)
        }
    }
}

/// The program headers of an ELF64 file, read from its file header.
pub open spec fn file_ph_list(d: Seq<u8>) -> Seq<ProgramHeader> {
    ph_list(d, le64(d, 32), le16(d, 54), le16(d, 56))
}

/// The NeoDOS metadata block of an ELF64 file: the descriptor of the first
/// NeoDOS note in its note segments.
pub open spec fn neodos_note(d: Seq<u8>) -> Option<Seq<u8>> {
    note_search(d, file_ph_list(d), 0)
}

/// Finds the NeoDOS metadata block of an ELF64 file: the descriptor of the
/// first note named `NeoDOS` in the first `PT_NOTE` segment, in program-header
/// order, that has one; segments that do not lie within the file are skipped.
pub fn find_neodos_note(data: &[u8]) -> (r: Option<Vec<u8>>)
    requires
        data@.len() >= 58,
    ensures
        match r {
            Some(v) => neodos_note(data@) == Some(v@),
            None => neodos_note(data@) is None,
        },
{
    let ghost d = data@;
    let e_phoff = read_u64(data, 32);
    let e_phentsize = read_u16(data, 54);
    let e_phnum = read_u16(data, 56);
    let phs = program_headers(data, e_phoff, e_phentsize, e_phnum);
    let target: Vec<u8> = vec![0x4e, 0x65, 0x6f, 0x44, 0x4f, 0x53];
    assert(target@ =~= neodos_name());
    let mut i: usize = 0;
    while i < phs.len()
        invariant
            d == data@,
            phs@ == file_ph_list(d),
            target@ == neodos_name(),
            i <= phs@.len(),
            neodos_note(d) == note_search(d, phs@, i as int),
        decreases phs@.len() - i,
    {
        let ph = phs[i];
        if ph.p_type == PT_NOTE && ph.p_offset as u128 + ph.p_filesz as u128 <= data.len() as u128 {
            let start = ph.p_offset as usize;
            let stop = (ph.p_offset as u128 + ph.p_filesz as u128) as usize;
            let found = scan_notes(&data[start..stop], target.as_slice());
            if found.is_some() {
                return found;
            }
        }
        i = i + 1;
    }
    None
}

/// A note segment of `d` that lies within the file.
pub open spec fn in_file_note_segment(d: Seq<u8>, ph: ProgramHeader) -> bool {
    ph.p_type == PT_NOTE && ph.p_offset + ph.p_filesz <= d.len()
}

/// The descriptor of the first NeoDOS note in the segment `ph` of `d`.
pub open spec fn segment_neodos_note(d: Seq<u8>, ph: ProgramHeader) -> Option<Seq<u8>> {
    note_scan(d.subrange(ph.p_offset as int, ph.p_offset + ph.p_filesz), neodos_name(), 0)
}

proof fn lemma_note_search_reaches(d: Seq<u8>, phs: Seq<ProgramHeader>, k: int, i: int)
    requires
        0 <= k <= i < phs.len(),
        in_file_note_segment(d, phs[i]),
        forall|j: int| k <= j < i && in_file_note_segment(d, phs[j]) ==> segment_neodos_note(d, #[trigger] phs[j]) is None,
    ensures
        note_search(d, phs, k) == segment_neodos_note(d, phs[i]) || (segment_neodos_note(d, phs[i]) is None
            && note_search(d, phs, k) == note_search(d, phs, i + 1)),
    decreases i - k,
{
    if k < i {
        lemma_note_search_reaches(d, phs, k + 1, i);
    }
}

proof fn lemma_note_search_none(d: Seq<u8>, phs: Seq<ProgramHeader>, k: int)
    requires
        0 <= k <= phs.len(),
        forall|j: int| k <= j < phs.len() && in_file_note_segment(d, phs[j]) ==> segment_neodos_note(d, #[trigger] phs[j]) is None,
    ensures
        note_search(d, phs, k) is None,
    decreases phs.len() - k,
{
    if k < phs.len() {
        lemma_note_search_none(d, phs, k + 1);
    }
}

/// The metadata block is found in the first note segment, in program-header
/// order, that lies within the file and holds a NeoDOS note; segments before
/// it that hold none are passed over. When no such segment holds one, there
/// is no metadata block.
pub proof fn lemma_neodos_note_first_holding(d: Seq<u8>, i: int)
    ensures
        0 <= i < file_ph_list(d).len() && in_file_note_segment(d, file_ph_list(d)[i])
            && segment_neodos_note(d, file_ph_list(d)[i]) is Some && (forall|j: int|
            0 <= j < i && in_file_note_segment(d, file_ph_list(d)[j]) ==> segment_neodos_note(
                d,
                #[trigger] file_ph_list(d)[j],
            ) is None) ==> neodos_note(d) == segment_neodos_note(d, file_ph_list(d)[i]),
        (forall|j: int|
            0 <= j < file_ph_list(d).len() && in_file_note_segment(d, file_ph_list(d)[j])
                ==> segment_neodos_note(d, #[trigger] file_ph_list(d)[j]) is None) ==> neodos_note(d) is None,
{
    let phs = file_ph_list(d);
    if 0 <= i < phs.len() && in_file_note_segment(d, phs[i]) && segment_neodos_note(d, phs[i]) is Some && (
    forall|j: int| 0 <= j < i && in_file_note_segment(d, phs[j]) ==> segment_neodos_note(d, #[trigger] phs[j]) is None) {
        lemma_note_search_reaches(d, phs, 0, i);
    }
    if forall|j: int| 0 <= j < phs.len() && in_file_note_segment(d, phs[j]) ==> segment_neodos_note(d, #[trigger] phs[j]) is None {
        lemma_note_search_none(d, phs, 0);
    }
}

/// A metadata record: its tag and where its value lies.
#[verifier::ext_equal]
pub struct MetaRec {
    pub tag: u16,
    pub start: int,
    pub len: int,
}

/// The complete metadata records from `pos` on: reading stops at the first
/// record whose header or value would cross the end.
pub open spec fn meta_records(d: Seq<u8>, pos: int) -> Seq<MetaRec>
    decreases d.len() - pos,
{
    if pos < 0 || pos + 4 > d.len() {
        seq![]
    } else {
        let len = le16(d, pos + 2);
        if pos + 4 + len > d.len() {
            seq![]
        } else {
            seq![MetaRec { tag: le16(d, pos) as u16, start: pos + 4, len }] + meta_records(d, pos + 4 + len)
        }
    }
}

/// The first record with tag `tag` whose value is at least `min_len` bytes long.
pub open spec fn first_meta(recs: Seq<MetaRec>, tag: u16, min_len: int) -> Option<MetaRec>
    decreases recs.len(),
{
    if recs.len() == 0 {
        None
    } else if recs[0].tag == tag && recs[0].len >= min_len {
        Some(recs[0])
    } else {
        first_meta(recs.drop_first(), tag, min_len)
    }
}

/// The text of the first record with tag `tag`.
pub open spec fn meta_string(d: Seq<u8>, tag: u16) -> Option<Seq<char>> {
    match first_meta(meta_records(d, 0), tag, 0) {
        Some(m) => Some(decoded_text(d.subrange(m.start, m.start + m.len))),
        None => None,
    }
}

/// The number stored at the start of the first record with tag `tag` whose
/// value has at least four bytes.
pub open spec fn meta_u32(d: Seq<u8>, tag: u16) -> Option<u32> {
    match first_meta(meta_records(d, 0), tag, 4) {
        Some(m) => Some(le32(d, m.start) as u32),
        None => None,
    }
}

/// Finds the first record with tag `target_tag` whose value is at least
/// `min_len` bytes long; gives where its value starts and its length.
fn find_meta(desc: &[u8], target_tag: u16, min_len: usize) -> (r: Option<(usize, usize)>)
    ensures
        match r {
            Some((start, len)) => first_meta(meta_records(desc@, 0), target_tag, min_len as int)
                == Some(MetaRec { tag: target_tag, start: start as int, len: len as int }),
            None => first_meta(meta_records(desc@, 0), target_tag, min_len as int) is None,
        },
        r matches Some((start, len)) ==> start + len <= desc.len() && len >= min_len,
{
    let ghost d = desc@;
    let mut pos: usize = 0;
    while pos <= desc.len() && desc.len() - pos >= 4
        invariant
            d == desc@,
            first_meta(meta_records(d, 0), target_tag, min_len as int)
                == first_meta(meta_records(d, pos as int), target_tag, min_len as int),
        decreases d.len() - pos,
    {
        let tag = read_u16(desc, pos);
        let length = read_u16(desc, pos + 2) as usize;
        let vstart = pos + 4;
        if length > desc.len() - vstart {
            assert(meta_records(d, pos as int) == Seq::<MetaRec>::empty());
            return None;
        }
        let ghost rec = MetaRec { tag, start: vstart as int, len: length as int };
        assert(meta_records(d, pos as int) == seq![rec] + meta_records(d, vstart + length));
        assert((seq![rec] + meta_records(d, vstart + length)).drop_first() =~= meta_records(d, vstart + length));
        if tag == target_tag && length >= min_len {
            return Some((vstart, length));
        }
        pos = vstart + length;
    }
    assert(meta_records(d, pos as int) == Seq::<MetaRec>::empty());
    None
}

/// The text of the first metadata record with tag `target_tag`, decoded as
/// lossy UTF-8.
pub fn get_meta_string(desc: &[u8], target_tag: u16) -> (r: Option<String>)
    ensures
        match r {
            Some(s) => meta_string(desc@, target_tag) == Some(s@),
            None => meta_string(desc@, target_tag) is None,
        },
{
    match find_meta(desc, target_tag, 0) {
        Some((start, len)) => Some(lossy_string(&desc[start..start + len])),
        None => None,
    }
}

/// The little-endian number at the start of the first metadata record with tag
/// `target_tag` whose value has at least four bytes.
pub fn get_meta_u32(desc: &[u8], target_tag: u16) -> (r: Option<u32>)
    ensures
        r == meta_u32(desc@, target_tag),
{
    match find_meta(desc, target_tag, 4) {
        Some((start, _len)) => Some(read_u32(desc, start)),
        None => None,
    }
}

/// One line of the metadata listing: a record's tag and its value as shown.
pub struct MetaLine {
    pub tag: u16,
    pub value: String,
}

#[verifier::ext_equal]
pub struct MetaLineView {
    pub tag: u16,
    pub value: Seq<char>,
}

impl View for MetaLine {
    type V = MetaLineView;

    open spec fn view(&self) -> MetaLineView {
        MetaLineView { tag: self.tag, value: self.value@ }
    }
}

/// A record's value as the listing shows it. For the subsystem and manifest
/// flags records the number shown is the little-endian `u32` that starts at
/// the record's tag (the tag in the low half, the length in the high half),
/// not the value bytes; every other value is shown as lossy UTF-8 text.
pub open spec fn meta_value_text(d: Seq<u8>, r: MetaRec) -> Seq<char> {
    if r.tag == 0x0008 {
        subsystem_label(le32(d, r.start - 4) as u32)
    } else if r.tag == 0x000D {
        manifest_flags_label(le32(d, r.start - 4) as u32)
    } else {
        decoded_text(d.subrange(r.start, r.start + r.len))
    }
}

/// The metadata listing of a NeoDOS block: every complete record, in order.
pub open spec fn metadata_listing(d: Seq<u8>) -> Seq<MetaLineView> {
    meta_records(d, 0).map(|i: int, r: MetaRec| MetaLineView { tag: r.tag, value: meta_value_text(d, r) })
}

/// Lists the records of a NeoDOS metadata block with their values as shown
/// (see `meta_value_text`).
pub fn metadata_lines(desc: &[u8]) -> (lines: Vec<MetaLine>)
    ensures
        lines@.map_values(|l: MetaLine| l@) == metadata_listing(desc@),
{
    let ghost d = desc@;
    let ghost mut seen: Seq<MetaRec> = seq![];
    let mut lines: Vec<MetaLine> = Vec::new();
    let mut pos: usize = 0;
    while pos <= desc.len() && desc.len() - pos >= 4
        invariant
            d == desc@,
            meta_records(d, 0) == seen + meta_records(d, pos as int),
            lines@.map_values(|l: MetaLine| l@) == seen.map(
                |i: int, r: MetaRec| MetaLineView { tag: r.tag, value: meta_value_text(d, r) },
            ),
        ensures
            meta_records(d, pos as int) == Seq::<MetaRec>::empty(),
            meta_records(d, 0) == seen + meta_records(d, pos as int),
            lines@.map_values(|l: MetaLine| l@) == seen.map(
                |i: int, r: MetaRec| MetaLineView { tag: r.tag, value: meta_value_text(d, r) },
            ),
        decreases d.len() - pos,
    {
        let tag = read_u16(desc, pos);
        let length = read_u16(desc, pos + 2) as usize;
        let vstart = pos + 4;
        if length > desc.len() - vstart {
            break;
        }
        let ghost rec = MetaRec { tag, start: vstart as int, len: length as int };
        assert(meta_records(d, pos as int) == seq![rec] + meta_records(d, vstart + length));
        let value = if tag == 0x0008 {
            String::from_str(subsystem_name(read_u32(desc, pos)))
        } else if tag == 0x000D {
            manifest_flags_text(read_u32(desc, pos))
        } else {
            lossy_string(&desc[vstart..vstart + length])
        };
        assert(value@ == meta_value_text(d, rec));
        let ghost before = lines@.map_values(|l: MetaLine| l@);
        lines.push(MetaLine { tag, value });
        proof {
            assert(lines@.map_values(|l: MetaLine| l@) =~= before.push(MetaLineView { tag, value: meta_value_text(d, rec) }));
            assert(seen + meta_records(d, pos as int) =~= seen.push(rec) + meta_records(d, vstart + length));
            assert(lines@.map_values(|l: MetaLine| l@) =~= seen.push(rec).map(
                |i: int, r: MetaRec| MetaLineView { tag: r.tag, value: meta_value_text(d, r) },
            ));
            seen = seen.push(rec);
        }
        pos = vstart + length;
    }
    assert(seen + meta_records(d, pos as int) =~= seen);
    lines
}

/// The view of an optional `String`.
pub open spec fn opt_text(o: Option<String>) -> Option<Seq<char>> {
    match o {
        Some(s) => Some(s@),
        None => None,
    }
}

/// The metadata the inspector's one-screen summary shows.
pub struct BriefMetadata {
    pub product: Option<String>,
    pub version: Option<String>,
    pub description: Option<String>,
    pub subsystem: Option<&'static str>,
    pub min_kernel: Option<String>,
    pub dependencies: Option<String>,
}

/// Gathers the summary metadata: product name, version, description,
/// subsystem name, minimum kernel and dependencies, each when present.
pub fn brief_metadata(note: &[u8]) -> (b: BriefMetadata)
    ensures
        opt_text(b.product) == meta_string(note@, 0x0001),
        opt_text(b.version) == meta_string(note@, 0x0002),
        opt_text(b.description) == meta_string(note@, 0x0004),
        match b.subsystem {
            Some(s) => meta_u32(note@, 0x0008) matches Some(v) && s@ == subsystem_label(v),
            None => meta_u32(note@, 0x0008) is None,
        },
        opt_text(b.min_kernel) == meta_string(note@, 0x000A),
        opt_text(b.dependencies) == meta_string(note@, 0x000B),
{
    let subsystem = match get_meta_u32(note, 0x0008) {
        Some(v) => Some(subsystem_name(v)),
        None => None,
    };
    BriefMetadata {
        product: get_meta_string(note, 0x0001),
        version: get_meta_string(note, 0x0002),
        description: get_meta_string(note, 0x0004),
        subsystem,
        min_kernel: get_meta_string(note, 0x000A),
        dependencies: get_meta_string(note, 0x000B),
    }
}

/// A value of the JSON report's metadata object.
pub enum JsonValue {
    Text(String),
    Number(u64),
}

/// A key and value of the JSON report's metadata object.
pub struct JsonField {
    pub key: &'static str,
    pub value: JsonValue,
}

pub enum JsonValueView {
    Text(Seq<char>),
    Number(u64),
}

#[verifier::ext_equal]
pub struct JsonFieldView {
    pub key: Seq<char>,
    pub value: JsonValueView,
}

impl View for JsonField {
    type V = JsonFieldView;

    open spec fn view(&self) -> JsonFieldView {
        JsonFieldView {
            key: self.key@,
            value: match self.value {
                JsonValue::Text(s) => JsonValueView::Text(s@),
                JsonValue::Number(n) => JsonValueView::Number(n),
            },
        }
    }
}

/// The field `key` with the text of record `tag`, when there is one.
pub open spec fn json_text_field(d: Seq<u8>, key: Seq<char>, tag: u16) -> Seq<JsonFieldView> {
    match meta_string(d, tag) {
        Some(s) => seq![JsonFieldView { key, value: JsonValueView::Text(s) }],
        None => seq![],
    }
}

/// The field `key` with the number of record `tag`, when there is one.
pub open spec fn json_number_field(d: Seq<u8>, key: Seq<char>, tag: u16) -> Seq<JsonFieldView> {
    match meta_u32(d, tag) {
        Some(n) => seq![JsonFieldView { key, value: JsonValueView::Number(n as u64) }],
        None => seq![],
    }
}

/// The metadata object of the JSON report, field by field.
pub open spec fn json_metadata_spec(d: Seq<u8>) -> Seq<JsonFieldView> {
    json_text_field(d, "product_name"@, 0x0001) + json_text_field(d, "product_version"@, 0x0002)
        + json_text_field(d, "file_version"@, 0x0003) + json_text_field(d, "description"@, 0x0004)
        + json_text_field(d, "author"@, 0x0005) + json_text_field(d, "license"@, 0x0006)
        + json_text_field(d, "arch"@, 0x0007) + json_text_field(d, "min_kernel"@, 0x000A)
        + json_text_field(d, "dependencies"@, 0x000B) + json_number_field(d, "subsystem"@, 0x0008)
        + json_number_field(d, "manifest_flags"@, 0x000D)
}

fn push_text_field(out: &mut Vec<JsonField>, key: &'static str, note: &[u8], tag: u16)
    ensures
        final(out)@.map_values(|f: JsonField| f@) == old(out)@.map_values(|f: JsonField| f@)
            + json_text_field(note@, key@, tag),
{
    let ghost before = out@.map_values(|f: JsonField| f@);
    match get_meta_string(note, tag) {
        Some(s) => {
            out.push(JsonField { key, value: JsonValue::Text(s) });
            assert(out@.map_values(|f: JsonField| f@) =~= before + json_text_field(note@, key@, tag));
        },
        None => {
            assert(out@.map_values(|f: JsonField| f@) =~= before + json_text_field(note@, key@, tag));
        },
    }
}

fn push_number_field(out: &mut Vec<JsonField>, key: &'static str, note: &[u8], tag: u16)
    ensures
        final(out)@.map_values(|f: JsonField| f@) == old(out)@.map_values(|f: JsonField| f@)
            + json_number_field(note@, key@, tag),
{
    let ghost before = out@.map_values(|f: JsonField| f@);
    match get_meta_u32(note, tag) {
        Some(n) => {
            out.push(JsonField { key, value: JsonValue::Number(n as u64) });
            assert(out@.map_values(|f: JsonField| f@) =~= before + json_number_field(note@, key@, tag));
        },
        None => {
            assert(out@.map_values(|f: JsonField| f@) =~= before + json_number_field(note@, key@, tag));
        },
    }
}

/// The metadata object of the JSON report: the text records under their keys,
/// then the subsystem and manifest flags as numbers, each when present.
pub fn json_metadata(note: &[u8]) -> (fields: Vec<JsonField>)
    ensures
        fields@.map_values(|f: JsonField| f@) == json_metadata_spec(note@),
{
    let mut fields: Vec<JsonField> = Vec::new();
    assert(fields@.map_values(|f: JsonField| f@) =~= Seq::<JsonFieldView>::empty());
    push_text_field(&mut fields, "product_name", note, 0x0001);
    push_text_field(&mut fields, "product_version", note, 0x0002);
    push_text_field(&mut fields, "file_version", note, 0x0003);
    push_text_field(&mut fields, "description", note, 0x0004);
    push_text_field(&mut fields, "author", note, 0x0005);
    push_text_field(&mut fields, "license", note, 0x0006);
    push_text_field(&mut fields, "arch", note, 0x0007);
    push_text_field(&mut fields, "min_kernel", note, 0x000A);
    push_text_field(&mut fields, "dependencies", note, 0x000B);
    push_number_field(&mut fields, "subsystem", note, 0x0008);
    push_number_field(&mut fields, "manifest_flags", note, 0x000D);
    assert(fields@.map_values(|f: JsonField| f@) =~= json_metadata_spec(note@));
    fields
}

/// The value of the first field named `key`, if any.
pub open spec fn field_value(fields: Seq<JsonFieldView>, key: Seq<char>) -> Option<JsonValueView>
    decreases fields.len(),
{
    if fields.len() == 0 {
        None
    } else if fields[0].key == key {
        Some(fields[0].value)
    } else {
        field_value(fields.drop_first(), key)
    }
}

/// A text as a JSON value.
pub open spec fn as_text(o: Option<Seq<char>>) -> Option<JsonValueView> {
    match o {
        Some(s) => Some(JsonValueView::Text(s)),
        None => None,
    }
}

/// A number as a JSON value.
pub open spec fn as_number(o: Option<u32>) -> Option<JsonValueView> {
    match o {
        Some(n) => Some(JsonValueView::Number(n as u64)),
        None => None,
    }
}

proof fn lemma_field_value_concat(a: Seq<JsonFieldView>, b: Seq<JsonFieldView>, key: Seq<char>)
    ensures
        field_value(a + b, key) == (if field_value(a, key) is Some { field_value(a, key) } else { field_value(b, key) }),
    decreases a.len(),
{
    if a.len() > 0 {
        assert((a + b).drop_first() =~= a.drop_first() + b);
        lemma_field_value_concat(a.drop_first(), b, key);
    } else {
        assert(a + b =~= b);
    }
}

/// The keys of the JSON metadata object, in order.
pub open spec fn json_keys() -> Seq<Seq<char>> {
    seq![
        "product_name"@, "product_version"@, "file_version"@, "description"@, "author"@,
        "license"@, "arch"@, "min_kernel"@, "dependencies"@, "subsystem"@, "manifest_flags"@
    ]
}

/// The value that belongs under each key of `json_keys`: the record with
/// that key's tag, as text or as a number.
pub open spec fn json_record_values(d: Seq<u8>) -> Seq<Option<JsonValueView>> {
    seq![
        as_text(meta_string(d, 0x0001)), as_text(meta_string(d, 0x0002)),
        as_text(meta_string(d, 0x0003)), as_text(meta_string(d, 0x0004)),
        as_text(meta_string(d, 0x0005)), as_text(meta_string(d, 0x0006)),
        as_text(meta_string(d, 0x0007)), as_text(meta_string(d, 0x000A)),
        as_text(meta_string(d, 0x000B)), as_number(meta_u32(d, 0x0008)),
        as_number(meta_u32(d, 0x000D))
    ]
}

/// The values of the pieces of the metadata object under `key`.
spec fn piece_values(d: Seq<u8>, key: Seq<char>) -> Seq<Option<JsonValueView>> {
    Seq::new(11, |j: int| if json_keys()[j] == key { json_record_values(d)[j] } else { None })
}

proof fn lemma_text_piece(d: Seq<u8>, k: Seq<char>, tag: u16, key: Seq<char>)
    ensures
        field_value(json_text_field(d, k, tag), key) == (if k == key { as_text(meta_string(d, tag)) } else { None }),
{
    lemma_field_value_single(JsonFieldView { key: k, value: JsonValueView::Text(meta_string(d, tag)->0) }, key);
}

proof fn lemma_number_piece(d: Seq<u8>, k: Seq<char>, tag: u16, key: Seq<char>)
    ensures
        field_value(json_number_field(d, k, tag), key) == (if k == key { as_number(meta_u32(d, tag)) } else { None }),
{
    lemma_field_value_single(JsonFieldView { key: k, value: JsonValueView::Number(meta_u32(d, tag)->0 as u64) }, key);
}

/// Looking a key up in the metadata object is looking it up in each piece in turn.
proof fn lemma_json_metadata_lookup(d: Seq<u8>, key: Seq<char>)
    ensures
        field_value(json_metadata_spec(d), key) == first_some(piece_values(d, key)),
{
    let p1 = json_text_field(d, "product_name"@, 0x0001);
    let p2 = json_text_field(d, "product_version"@, 0x0002);
    let p3 = json_text_field(d, "file_version"@, 0x0003);
    let p4 = json_text_field(d, "description"@, 0x0004);
    let p5 = json_text_field(d, "author"@, 0x0005);
    let p6 = json_text_field(d, "license"@, 0x0006);
    let p7 = json_text_field(d, "arch"@, 0x0007);
    let p8 = json_text_field(d, "min_kernel"@, 0x000A);
    let p9 = json_text_field(d, "dependencies"@, 0x000B);
    let p10 = json_number_field(d, "subsystem"@, 0x0008);
    let p11 = json_number_field(d, "manifest_flags"@, 0x000D);
    let x2 = p1 + p2;
    let x3 = x2 + p3;
    let x4 = x3 + p4;
    let x5 = x4 + p5;
    let x6 = x5 + p6;
    let x7 = x6 + p7;
    let x8 = x7 + p8;
    let x9 = x8 + p9;
    let x10 = x9 + p10;
    assert(json_metadata_spec(d) == x10 + p11);
    lemma_field_value_concat(p1, p2, key);
    lemma_field_value_concat(x2, p3, key);
    lemma_field_value_concat(x3, p4, key);
    lemma_field_value_concat(x4, p5, key);
    lemma_field_value_concat(x5, p6, key);
    lemma_field_value_concat(x6, p7, key);
    lemma_field_value_concat(x7, p8, key);
    lemma_field_value_concat(x8, p9, key);
    lemma_field_value_concat(x9, p10, key);
    lemma_field_value_concat(x10, p11, key);
    lemma_text_piece(d, "product_name"@, 0x0001, key);
    lemma_text_piece(d, "product_version"@, 0x0002, key);
    lemma_text_piece(d, "file_version"@, 0x0003, key);
    lemma_text_piece(d, "description"@, 0x0004, key);
    lemma_text_piece(d, "author"@, 0x0005, key);
    lemma_text_piece(d, "license"@, 0x0006, key);
    lemma_text_piece(d, "arch"@, 0x0007, key);
    lemma_text_piece(d, "min_kernel"@, 0x000A, key);
    lemma_text_piece(d, "dependencies"@, 0x000B, key);
    lemma_number_piece(d, "subsystem"@, 0x0008, key);
    lemma_number_piece(d, "manifest_flags"@, 0x000D, key);
    let vs = piece_values(d, key);
    assert(vs =~= seq![
        field_value(p1, key), field_value(p2, key), field_value(p3, key), field_value(p4, key),
        field_value(p5, key), field_value(p6, key), field_value(p7, key), field_value(p8, key),
        field_value(p9, key), field_value(p10, key), field_value(p11, key)
    ]);
    reveal_with_fuel(first_some, 12);
    assert(vs.drop_last() =~= seq![
        field_value(p1, key), field_value(p2, key), field_value(p3, key), field_value(p4, key),
        field_value(p5, key), field_value(p6, key), field_value(p7, key), field_value(p8, key),
        field_value(p9, key), field_value(p10, key)
    ]);
}

/// The first value that is present, if any.
pub open spec fn first_some(vs: Seq<Option<JsonValueView>>) -> Option<JsonValueView>
    decreases vs.len(),
{
    if vs.len() == 0 {
        None
    } else if vs.last() is Some && first_some(vs.drop_last()) is None {
        vs.last()
    } else {
        first_some(vs.drop_last())
    }
}

proof fn lemma_first_some_none(vs: Seq<Option<JsonValueView>>)
    requires
        forall|j: int| 0 <= j < vs.len() ==> #[trigger] vs[j] is None,
    ensures
        first_some(vs) is None,
    decreases vs.len(),
{
    if vs.len() > 0 {
        lemma_first_some_none(vs.drop_last());
    }
}

proof fn lemma_first_some_single(vs: Seq<Option<JsonValueView>>, i: int)
    requires
        0 <= i < vs.len(),
        forall|j: int| 0 <= j < vs.len() && j != i ==> #[trigger] vs[j] is None,
    ensures
        first_some(vs) == vs[i],
    decreases vs.len(),
{
    if i == vs.len() - 1 {
        lemma_first_some_none(vs.drop_last());
    } else {
        lemma_first_some_single(vs.drop_last(), i);
    }
}

/// Each key of the JSON metadata object holds the value of the record with
/// its own tag: `product_name` 1, `product_version` 2, `file_version` 3,
/// `description` 4, `author` 5, `license` 6, `arch` 7, `min_kernel` 0xA,
/// `dependencies` 0xB as text, `subsystem` 8 and `manifest_flags` 0xD as
/// numbers; a key is present exactly when its record is.
pub proof fn lemma_json_metadata_keys(d: Seq<u8>)
    ensures
        field_value(json_metadata_spec(d), "product_name"@) == as_text(meta_string(d, 0x0001)),
        field_value(json_metadata_spec(d), "product_version"@) == as_text(meta_string(d, 0x0002)),
        field_value(json_metadata_spec(d), "file_version"@) == as_text(meta_string(d, 0x0003)),
        field_value(json_metadata_spec(d), "description"@) == as_text(meta_string(d, 0x0004)),
        field_value(json_metadata_spec(d), "author"@) == as_text(meta_string(d, 0x0005)),
        field_value(json_metadata_spec(d), "license"@) == as_text(meta_string(d, 0x0006)),
        field_value(json_metadata_spec(d), "arch"@) == as_text(meta_string(d, 0x0007)),
        field_value(json_metadata_spec(d), "min_kernel"@) == as_text(meta_string(d, 0x000A)),
        field_value(json_metadata_spec(d), "dependencies"@) == as_text(meta_string(d, 0x000B)),
        field_value(json_metadata_spec(d), "subsystem"@) == as_number(meta_u32(d, 0x0008)),
        field_value(json_metadata_spec(d), "manifest_flags"@) == as_number(meta_u32(d, 0x000D)),
{
    lemma_json_keys_distinct();
    let keys = json_keys();
    assert forall|i: int| 0 <= i < 11 implies field_value(json_metadata_spec(d), #[trigger] keys[i])
        == json_record_values(d)[i] by {
        lemma_json_metadata_lookup(d, keys[i]);
        let vs = piece_values(d, keys[i]);
        assert forall|j: int| 0 <= j < vs.len() && j != i implies #[trigger] vs[j] is None by {
            assert(keys[j] != keys[i]);
        }
        lemma_first_some_single(vs, i);
    }
    assert(keys[0] == "product_name"@);
    assert(keys[1] == "product_version"@);
    assert(keys[2] == "file_version"@);
    assert(keys[3] == "description"@);
    assert(keys[4] == "author"@);
    assert(keys[5] == "license"@);
    assert(keys[6] == "arch"@);
    assert(keys[7] == "min_kernel"@);
    assert(keys[8] == "dependencies"@);
    assert(keys[9] == "subsystem"@);
    assert(keys[10] == "manifest_flags"@);
}

/// The fields of the first `n` rows of the key table whose records are present,
/// in table order.
pub open spec fn table_fields(d: Seq<u8>, n: int) -> Seq<JsonFieldView>
    decreases n,
{
    if n <= 0 {
        Seq::empty()
    } else {
        table_fields(d, n - 1) + match json_record_values(d)[n - 1] {
            Some(v) => seq![JsonFieldView { key: json_keys()[n - 1], value: v }],
            None => Seq::empty(),
        }
    }
}

/// The metadata object holds exactly one field for each row of the key table
/// whose record is present, in table order, and nothing else.
pub proof fn lemma_json_metadata_table(d: Seq<u8>)
    ensures
        json_metadata_spec(d) == table_fields(d, 11),
{
    reveal_with_fuel(table_fields, 12);
    assert(json_metadata_spec(d) =~= table_fields(d, 11));
}

/// No two keys of the metadata object are the same.
proof fn lemma_json_keys_distinct()
    ensures
        json_keys().len() == 11,
        forall|i: int, j: int| 0 <= i < 11 && 0 <= j < 11 && i != j ==> json_keys()[i] != json_keys()[j],
{
    reveal_strlit("product_name");
    reveal_strlit("product_version");
    reveal_strlit("file_version");
    reveal_strlit("description");
    reveal_strlit("author");
    reveal_strlit("license");
    reveal_strlit("arch");
    reveal_strlit("min_kernel");
    reveal_strlit("dependencies");
    reveal_strlit("subsystem");
    reveal_strlit("manifest_flags");
    let k = json_keys();
    assert(k[0].len() == 12 && k[0][0] == 'p');
    assert(k[1].len() == 15);
    assert(k[2].len() == 12 && k[2][0] == 'f');
    assert(k[3].len() == 11);
    assert(k[4].len() == 6);
    assert(k[5].len() == 7);
    assert(k[6].len() == 4);
    assert(k[7].len() == 10);
    assert(k[8].len() == 12 && k[8][0] == 'd');
    assert(k[9].len() == 9);
    assert(k[10].len() == 14);
}

proof fn lemma_field_value_single(x: JsonFieldView, key: Seq<char>)
    ensures
        field_value(seq![x], key) == (if x.key == key { Some(x.value) } else { None }),
        field_value(Seq::<JsonFieldView>::empty(), key) is None,
{
    assert(seq![x].drop_first() =~= Seq::<JsonFieldView>::empty());
}

} // verus!
