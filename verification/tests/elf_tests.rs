use neotools::dump::{
    dump_char, exceeds_nxe_slot, find_strings, hex_omitted, hex_rows, load_segments, relocations,
    RelaEntry,
};
use neotools::elf::{
    check_nxe, dump_sections, has_elf_magic, parse_elf_header, program_headers, section_headers,
    section_listing, ElfError, NxeIssue,
};
use neotools::names::{
    dump_section_type_name, dump_segment_type_name, elf_kind, manifest_flags_text, meta_tag_name,
    rwe_flags, section_type_name, segment_type_name, subsystem_name, ElfKind,
};
use neotools::report::{hex_text, json_report};
use neotools::notes::{
    brief_metadata, find_neodos_note, get_meta_string, get_meta_u32, json_metadata, metadata_lines,
    scan_notes, JsonValue,
};

fn put16(d: &mut Vec<u8>, off: usize, v: u16) {
    d[off..off + 2].copy_from_slice(&v.to_le_bytes());
}
fn put32(d: &mut Vec<u8>, off: usize, v: u32) {
    d[off..off + 4].copy_from_slice(&v.to_le_bytes());
}
fn put64(d: &mut Vec<u8>, off: usize, v: u64) {
    d[off..off + 8].copy_from_slice(&v.to_le_bytes());
}

fn meta_desc() -> Vec<u8> {
    let mut d = Vec::new();
    let mut rec = |tag: u16, val: &[u8]| {
        d.extend_from_slice(&tag.to_le_bytes());
        d.extend_from_slice(&(val.len() as u16).to_le_bytes());
        d.extend_from_slice(val);
    };
    rec(0x0001, b"Hello");
    rec(0x0002, b"1.0");
    rec(0x0008, &1u32.to_le_bytes());
    rec(0x000D, &3u32.to_le_bytes());
    rec(0x0004, b"Demo app");
    rec(0x0007, b"x86_64");
    d
}

fn note(name: &[u8], desc: &[u8]) -> Vec<u8> {
    let mut n = Vec::new();
    n.extend_from_slice(&((name.len() + 1) as u32).to_le_bytes());
    n.extend_from_slice(&(desc.len() as u32).to_le_bytes());
    n.extend_from_slice(&1u32.to_le_bytes());
    n.extend_from_slice(name);
    n.push(0);
    while n.len() % 4 != 0 {
        n.push(0);
    }
    n.extend_from_slice(desc);
    while n.len() % 4 != 0 {
        n.push(0);
    }
    n
}

struct Fixture {
    data: Vec<u8>,
    note_off: usize,
    rela_off: usize,
    strtab_off: usize,
    shoff: usize,
}

fn fixture() -> Fixture {
    let mut d = vec![0u8; 64 + 3 * 56];
    d[0..4].copy_from_slice(b"\x7fELF");
    d[4] = 2;
    d[5] = 1;
    d[6] = 1;
    put16(&mut d, 16, 3);
    put16(&mut d, 18, 62);
    put32(&mut d, 20, 1);
    put64(&mut d, 24, 0x1000);
    put64(&mut d, 32, 64);
    put16(&mut d, 52, 64);
    put16(&mut d, 54, 56);
    put16(&mut d, 56, 3);
    put16(&mut d, 58, 64);
    // notes: one foreign note, then the NeoDOS one
    let note_off = d.len();
    let mut notes = note(b"GNU", b"abcd");
    notes.extend_from_slice(&note(b"NeoDOS", &meta_desc()));
    d.extend_from_slice(&notes);
    // dynamic entries
    let dyn_off = d.len();
    let rela_off = dyn_off + 64;
    for (tag, val) in [(7i64, rela_off as u64), (8, 48), (9, 24), (0, 0)] {
        d.extend_from_slice(&tag.to_le_bytes());
        d.extend_from_slice(&val.to_le_bytes());
    }
    // relocations
    for (off, info, add) in [(0x2000u64, 8u64, 0x10i64), (0x2008, 1, 0)] {
        d.extend_from_slice(&off.to_le_bytes());
        d.extend_from_slice(&info.to_le_bytes());
        d.extend_from_slice(&add.to_le_bytes());
    }
    // section names
    let strtab_off = d.len();
    d.extend_from_slice(b"\0.text\0.shstrtab\0");
    while d.len() % 8 != 0 {
        d.push(0);
    }
    let shoff = d.len();
    d.extend_from_slice(&[0u8; 3 * 64]);
    put32(&mut d, shoff + 64, 1);
    put32(&mut d, shoff + 64 + 4, 1);
    put64(&mut d, shoff + 64 + 16, 0x1000);
    put64(&mut d, shoff + 64 + 24, 0x100);
    put64(&mut d, shoff + 64 + 32, 0x40);
    put32(&mut d, shoff + 128, 7);
    put32(&mut d, shoff + 128 + 4, 3);
    put64(&mut d, shoff + 128 + 24, strtab_off as u64);
    put64(&mut d, shoff + 128 + 32, 17);
    put64(&mut d, 40, shoff as u64);
    put16(&mut d, 60, 3);
    put16(&mut d, 62, 2);
    // program headers: LOAD, NOTE, DYNAMIC
    put32(&mut d, 64, 1);
    put32(&mut d, 68, 5);
    put64(&mut d, 64 + 16, 0x1000);
    put64(&mut d, 64 + 32, 0x200);
    put64(&mut d, 64 + 40, 0x300);
    put64(&mut d, 64 + 48, 0x1000);
    put32(&mut d, 120, 4);
    put32(&mut d, 124, 4);
    put64(&mut d, 120 + 8, note_off as u64);
    put64(&mut d, 120 + 32, notes.len() as u64);
    put32(&mut d, 176, 2);
    put32(&mut d, 180, 6);
    put64(&mut d, 176 + 8, dyn_off as u64);
    put64(&mut d, 176 + 32, 64);
    Fixture { data: d, note_off, rela_off, strtab_off, shoff }
}

#[test]
fn header_fields() {
    let f = fixture();
    let h = parse_elf_header(&f.data).unwrap();
    assert_eq!(h.e_type, 3);
    assert_eq!(h.e_machine, 62);
    assert_eq!(h.e_entry, 0x1000);
    assert_eq!(h.e_phoff, 64);
    assert_eq!(h.e_shoff, f.shoff as u64);
    assert_eq!(h.e_phnum, 3);
    assert_eq!(h.e_shnum, 3);
    assert_eq!(h.e_shstrndx, 2);
    assert_eq!(h.version, 1);
    assert!(has_elf_magic(&f.data));
}

#[test]
fn header_errors() {
    assert_eq!(parse_elf_header(&[0u8; 10]), Err(ElfError::TooSmall(10)));
    assert_eq!(parse_elf_header(&[0u8; 64]), Err(ElfError::BadMagic));
    let mut d = fixture().data;
    d[4] = 1;
    assert_eq!(parse_elf_header(&d), Err(ElfError::NotElf64(1)));
    d[4] = 2;
    d[5] = 2;
    assert_eq!(parse_elf_header(&d), Err(ElfError::NotLittleEndian(2)));
    assert!(!has_elf_magic(b"\x7fEL"));
}

#[test]
fn nxe_check() {
    let f = fixture();
    assert!(check_nxe(&f.data, 3, 62).is_empty());
    assert_eq!(check_nxe(&f.data, 1, 40), vec![NxeIssue::UnsupportedType(1), NxeIssue::UnsupportedMachine(40)]);
    let big = {
        let mut b = f.data.clone();
        b.resize(70_000, 0);
        b
    };
    assert_eq!(check_nxe(&big, 2, 62), vec![NxeIssue::TooLarge(70_000)]);
    let small = vec![0u8; 6];
    assert_eq!(
        check_nxe(&small, 3, 62),
        vec![NxeIssue::TooSmall, NxeIssue::BadMagic, NxeIssue::Not64Bit, NxeIssue::NotLittleEndian]
    );
}

#[test]
fn program_header_table() {
    let f = fixture();
    let phs = program_headers(&f.data, 64, 56, 3);
    assert_eq!(phs.len(), 3);
    assert_eq!(phs[0].p_type, 1);
    assert_eq!(phs[0].p_flags, 5);
    assert_eq!(phs[0].p_vaddr, 0x1000);
    assert_eq!(phs[0].p_filesz, 0x200);
    assert_eq!(phs[0].p_memsz, 0x300);
    assert_eq!(phs[1].p_offset, f.note_off as u64);
    // a table that runs past the end stops at the last entry that fits
    let cut = program_headers(&f.data[..64 + 2 * 56 + 10], 64, 56, 3);
    assert_eq!(cut.len(), 2);
    let none = program_headers(&f.data, u64::MAX, 56, 3);
    assert!(none.is_empty());
}

#[test]
fn loadable_segments() {
    let f = fixture();
    let segs = load_segments(&f.data);
    assert_eq!(segs.len(), 1);
    assert_eq!(segs[0].p_vaddr, 0x1000);
    assert!(!exceeds_nxe_slot(65536));
    assert!(exceeds_nxe_slot(65537));
}

#[test]
fn sections_of_inspector() {
    let f = fixture();
    let secs = section_listing(&f.data, f.shoff as u64, 64, 3, 2).unwrap();
    assert_eq!(secs.len(), 3);
    assert_eq!(secs[0].name.as_deref(), Some(""));
    assert_eq!(secs[1].name.as_deref(), Some(".text"));
    assert_eq!(secs[2].name.as_deref(), Some(".shstrtab"));
    assert_eq!(secs[1].sh_type, 1);
    // the address is read from byte 12 of the entry
    assert_eq!(secs[1].addr, 0x1000u64 << 32);
    assert_eq!(secs[1].offset, 0x100);
    assert_eq!(secs[1].size, 0x40);
    assert_eq!(secs[2].offset, f.strtab_off as u64);
    assert!(section_listing(&f.data, 0, 64, 3, 2).is_none());
    assert!(section_listing(&f.data, f.shoff as u64, 64, 0, 2).is_none());
    // a string table header beyond the end leaves every section unnamed
    let unnamed = section_listing(&f.data, f.shoff as u64, 64, 3, 500).unwrap();
    assert!(unnamed.iter().all(|s| s.name.is_none()));
    assert_eq!(section_headers(&f.data, f.shoff as u64, 64, 3).len(), 3);
}

#[test]
fn sections_of_dump() {
    let f = fixture();
    let secs = dump_sections(&f.data).unwrap();
    assert_eq!(secs.len(), 3);
    assert_eq!(secs[1].name.as_deref(), Some(".text"));
    let mut no_table = f.data.clone();
    put64(&mut no_table, 40, 0);
    assert!(dump_sections(&no_table).is_none());
}

#[test]
fn neodos_note_found() {
    let f = fixture();
    let note = find_neodos_note(&f.data).unwrap();
    assert_eq!(note, meta_desc());
    let gnu_only = note_bytes_gnu();
    assert_eq!(scan_notes(&gnu_only, b"NeoDOS"), None);
    assert_eq!(scan_notes(&gnu_only, b"GNU"), Some(b"abcd".to_vec()));
    assert_eq!(scan_notes(&[0u8; 11], b"GNU"), None);
}

fn note_bytes_gnu() -> Vec<u8> {
    note(b"GNU", b"abcd")
}

#[test]
fn note_in_segment_beyond_file_is_skipped() {
    let f = fixture();
    let mut d = f.data.clone();
    put64(&mut d, 120 + 32, 1 << 40);
    assert_eq!(find_neodos_note(&d), None);
}

#[test]
fn metadata_lookup() {
    let desc = meta_desc();
    assert_eq!(get_meta_string(&desc, 1).as_deref(), Some("Hello"));
    assert_eq!(get_meta_string(&desc, 4).as_deref(), Some("Demo app"));
    assert_eq!(get_meta_string(&desc, 0x10), None);
    assert_eq!(get_meta_u32(&desc, 8), Some(1));
    assert_eq!(get_meta_u32(&desc, 0xD), Some(3));
    // a record too short for a number is passed over
    assert_eq!(get_meta_u32(&desc, 2), None);
    // a record whose value runs past the end ends the list
    let mut cut = desc.clone();
    cut.truncate(12);
    assert_eq!(get_meta_string(&cut, 2), None);
    assert_eq!(get_meta_string(&cut, 1).as_deref(), Some("Hello"));
}

#[test]
fn metadata_listing_values() {
    let lines = metadata_lines(&meta_desc());
    assert_eq!(lines.len(), 6);
    assert_eq!(lines[0].tag, 1);
    assert_eq!(lines[0].value, "Hello");
    // the subsystem and flags values are read from the record's tag and length
    assert_eq!(lines[2].value, "UNKNOWN");
    assert_eq!(lines[3].value, "CORE NOASLR SINGLETON ");
    assert_eq!(lines[4].value, "Demo app");
}

#[test]
fn brief_summary() {
    let b = brief_metadata(&meta_desc());
    assert_eq!(b.product.as_deref(), Some("Hello"));
    assert_eq!(b.version.as_deref(), Some("1.0"));
    assert_eq!(b.description.as_deref(), Some("Demo app"));
    assert_eq!(b.subsystem, Some("CONSOLE"));
    assert_eq!(b.min_kernel, None);
    assert_eq!(b.dependencies, None);
}

#[test]
fn json_fields() {
    let fields = json_metadata(&meta_desc());
    let keys: Vec<&str> = fields.iter().map(|f| f.key).collect();
    assert_eq!(keys, vec!["product_name", "product_version", "description", "arch", "subsystem", "manifest_flags"]);
    match &fields[4].value {
        JsonValue::Number(n) => assert_eq!(*n, 1),
        JsonValue::Text(_) => panic!("subsystem is a number"),
    }
    match &fields[3].value {
        JsonValue::Text(t) => assert_eq!(t, "x86_64"),
        JsonValue::Number(_) => panic!("arch is text"),
    }
}

#[test]
fn relative_relocations() {
    let f = fixture();
    let tables = relocations(&f.data);
    assert_eq!(tables.len(), 1);
    assert_eq!(tables[0].count, 2);
    assert_eq!(tables[0].addr, f.rela_off as u64);
    assert_eq!(tables[0].more, 0);
    assert_eq!(tables[0].entries, vec![RelaEntry { index: 0, offset: 0x2000, addend: 0x10 }]);
}

#[test]
fn printable_strings() {
    let mut d = b"\x00\x01abc\x02hello world\x00xy:z\\w\x7f".to_vec();
    d.extend_from_slice(b"tail");
    let r = find_strings(&d);
    assert_eq!(r.found.len(), 3);
    assert_eq!(r.found[0].offset, 6);
    assert_eq!(r.found[0].text, "hello world");
    assert_eq!(r.found[1].text, "xy:z\\w");
    assert_eq!(r.found[2].text, "tail");
    assert!(!r.truncated);
    let many = b"abcd\0".repeat(150);
    let r2 = find_strings(&many);
    assert_eq!(r2.found.len(), 100);
    assert!(r2.truncated);
    assert_eq!(r2.found[99].offset, 99 * 5);
}

#[test]
fn hex_dump_rows() {
    let d: Vec<u8> = (0..40u8).collect();
    let rows = hex_rows(&d);
    assert_eq!(rows.len(), 3);
    assert_eq!(rows[1].offset, 16);
    assert_eq!(rows[2].bytes, (32..40u8).collect::<Vec<u8>>());
    let big = vec![0u8; 5000];
    assert_eq!(hex_rows(&big).len(), 256);
    assert_eq!(hex_omitted(5000), 904);
    assert_eq!(hex_omitted(100), 0);
    assert_eq!(dump_char(b'A'), 'A');
    assert_eq!(dump_char(b' '), ' ');
    assert_eq!(dump_char(0x7f), '.');
}

#[test]
fn names() {
    assert_eq!(elf_kind(3), ElfKind::Dyn);
    assert_eq!(elf_kind(2), ElfKind::Exec);
    assert_eq!(elf_kind(9), ElfKind::Other);
    assert_eq!(segment_type_name(0x6474e551), Some("GNU_STACK"));
    assert_eq!(segment_type_name(5), None);
    assert_eq!(section_type_name(0x6ffffff6), Some("GNU_HASH"));
    assert_eq!(section_type_name(5), None);
    assert_eq!(dump_segment_type_name(3), "OTHER");
    assert_eq!(dump_section_type_name(0), "OTHER");
    assert_eq!(dump_section_type_name(11), "DYNSYM");
    assert_eq!(rwe_flags(5), "R-E");
    assert_eq!(rwe_flags(6), "RW-");
    assert_eq!(rwe_flags(0), "---");
    assert_eq!(meta_tag_name(0x000A), Some("Min Kernel"));
    assert_eq!(meta_tag_name(0x0011), None);
    assert_eq!(subsystem_name(2), "GUI");
    assert_eq!(subsystem_name(7), "UNKNOWN");
    assert_eq!(manifest_flags_text(0), "(none)");
    assert_eq!(manifest_flags_text(10), "BOOT SINGLETON ");
    assert_eq!(manifest_flags_text(16), "(none)");
}

#[test]
fn readable_header_only_reports_type_machine_size() {
    let f = fixture();
    let h = parse_elf_header(&f.data).unwrap();
    assert!(check_nxe(&f.data, h.e_type, h.e_machine).is_empty());
    let issues = check_nxe(&f.data, 0, 0);
    assert_eq!(issues, vec![NxeIssue::UnsupportedType(0), NxeIssue::UnsupportedMachine(0)]);
}

#[test]
fn hex_rows_cover_shown_bytes() {
    let d: Vec<u8> = (0..5000u32).map(|x| (x % 251) as u8).collect();
    let joined: Vec<u8> = hex_rows(&d).into_iter().flat_map(|r| r.bytes).collect();
    assert_eq!(joined, d[..4096].to_vec());
    let small: Vec<u8> = (0..21u8).collect();
    let joined: Vec<u8> = hex_rows(&small).into_iter().flat_map(|r| r.bytes).collect();
    assert_eq!(joined, small);
}

#[test]
fn hex_text_form() {
    assert_eq!(hex_text(0), "0x0");
    assert_eq!(hex_text(0x3e), "0x3e");
    assert_eq!(hex_text(0x1000), "0x1000");
    assert_eq!(hex_text(u64::MAX), "0xffffffffffffffff");
    assert_eq!(hex_text(0xABCDEF), format!("{:#x}", 0xABCDEFu64));
}

#[test]
fn json_report_object() {
    let f = fixture();
    let h = parse_elf_header(&f.data).unwrap();
    let text = json_report(&f.data, &h);
    let v: serde_json::Value = serde_json::from_str(&text).unwrap();
    assert_eq!(v["format"], "ELF64");
    assert_eq!(v["type"], "0x3");
    assert_eq!(v["machine"], "0x3e");
    assert_eq!(v["entry"], "0x1000");
    assert_eq!(v["segments"], 3);
    assert_eq!(v["sections"], 3);
    assert_eq!(v["size"], f.data.len() as u64);
    assert_eq!(v["metadata"]["product_name"], "Hello");
    assert_eq!(v["metadata"]["subsystem"], 1);
    assert_eq!(v["metadata"]["manifest_flags"], 3);
    assert_eq!(v["metadata"].as_object().unwrap().len(), 6);
    assert!(text.contains("\n  \"format\": \"ELF64\""));
    let mut plain = f.data.clone();
    put32(&mut plain, 120, 1);
    let v2: serde_json::Value = serde_json::from_str(&json_report(&plain, &h)).unwrap();
    assert!(v2.get("metadata").is_none());
}
