//! What reading gives back of a package that was just built.

use vstd::prelude::*;
use vstd::utf8::*;
use crate::bytes::{le16, le32};
use crate::crc::{crc32, lemma_crc32_detects_one_byte};
use crate::nxp::{
    MAGIC_NXP1, TAG_ARCH, TAG_DESC, TAG_NAME, TAG_VER, Tlv, tlv_records, last_tlv, tlv_text,
    nxp_view, nxp_well_formed, nxp_entry_fits, EntryView, nxp_entry_view,
    nxp_entry_path, crc_mismatches, CrcMismatchView, nxp_verifies, nxp_entry_count,
    nxp_entry_base, nxp_entry_data_off, nxp_entry_data_size, nxp_entry_crc, nxp_manifest_end, nxp_header_ok,
};
use crate::package::{
    header_bytes, header_tail, entry_bytes, pool_pieces, file_contents, tag4, tlv_bytes,
    manifest_bytes, package_bytes, package_size, data_start, table_pieces, tag_name_bytes,
    tag_ver_bytes, tag_desc_bytes, tag_arch_bytes, arch_value,
};
use crate::seqs::{
    lemma_u16_bytes, lemma_u32_bytes, occurs, prefix_len, flatten, lemma_occurs_index,
    lemma_occurs_le32, lemma_occurs_le16, lemma_occurs_concat, lemma_occurs_trans,
    lemma_flatten_len, lemma_flatten_occurs, lemma_prefix_len_mono, lemma_prefix_len_uniform,
};
use crate::text::{cstr_len, cstr_text, display_char, ByteDisplay};

verus! {

proof fn lemma_header_fields(ms: int, n: int)
    requires
        0 <= ms <= u32::MAX,
        0 <= n <= u32::MAX,
    ensures
        header_bytes(ms, n).len() == 32,
        le32(header_bytes(ms, n), 0) == MAGIC_NXP1,
        le32(header_bytes(ms, n), 4) == crc32(header_tail(ms, n)),
        le16(header_bytes(ms, n), 8) == 1,
        le16(header_bytes(ms, n), 10) == 0,
        le32(header_bytes(ms, n), 12) == 0,
        le32(header_bytes(ms, n), 16) == 32,
        le32(header_bytes(ms, n), 20) == ms,
        le32(header_bytes(ms, n), 24) == n,
        header_bytes(ms, n).subrange(8, 32) == header_tail(ms, n),
{
    let t = header_tail(ms, n);
    let h = header_bytes(ms, n);
    lemma_u32_bytes(MAGIC_NXP1);
    lemma_u32_bytes(crc32(t));
    lemma_u16_bytes(1);
    lemma_u16_bytes(0);
    lemma_u32_bytes(0);
    lemma_u32_bytes(32);
    lemma_u32_bytes(ms as u32);
    lemma_u32_bytes(n as u32);
    assert(h.subrange(8, 32) =~= t);
}

proof fn lemma_entry_fields(files: Seq<(Seq<u8>, Seq<u8>)>, ds: int, i: int)
    requires
        0 <= i < files.len(),
        0 <= prefix_len(pool_pieces(files), i) <= u32::MAX,
        0 <= ds + prefix_len(file_contents(files), i) <= u32::MAX,
        files[i].1.len() <= u32::MAX,
    ensures
        entry_bytes(files, ds, i).len() == 32,
        le32(entry_bytes(files, ds, i), 0) == prefix_len(pool_pieces(files), i),
        le32(entry_bytes(files, ds, i), 4) == ds + prefix_len(file_contents(files), i),
        le32(entry_bytes(files, ds, i), 8) == files[i].1.len(),
        le32(entry_bytes(files, ds, i), 12) == crc32(files[i].1),
{
    lemma_u32_bytes(prefix_len(pool_pieces(files), i) as u32);
    lemma_u32_bytes((ds + prefix_len(file_contents(files), i)) as u32);
    lemma_u32_bytes(files[i].1.len() as u32);
    lemma_u32_bytes(crc32(files[i].1));
    lemma_u32_bytes(0);
}

proof fn lemma_cstr_len_piece(s: Seq<u8>, a: int, p: Seq<u8>, j: int)
    requires
        occurs(s, a, p.push(0u8)),
        forall|k: int| 0 <= k < p.len() ==> #[trigger] p[k] != 0,
        0 <= j <= p.len(),
    ensures
        cstr_len(s, a + j) == p.len() - j,
    decreases p.len() - j,
{
    lemma_occurs_index(s, a, p.push(0u8), j);
    if j < p.len() {
        assert(p.push(0u8)[j] == p[j]);
        lemma_cstr_len_piece(s, a, p, j + 1);
    } else {
        assert(p.push(0u8)[j] == 0);
    }
}

/// A path stored with its terminating NUL reads back as the path.
proof fn lemma_cstr_of_piece(s: Seq<u8>, a: int, p: Seq<u8>, how: ByteDisplay)
    requires
        occurs(s, a, p.push(0u8)),
        forall|k: int| 0 <= k < p.len() ==> #[trigger] p[k] != 0,
    ensures
        cstr_len(s, a) == p.len(),
        cstr_text(s, a, how) == Seq::new(p.len(), |k: int| display_char(how, p[k])),
{
    lemma_cstr_len_piece(s, a, p, 0);
    assert forall|k: int| 0 <= k < p.len() implies s[a + k] == p[k] by {
        lemma_occurs_index(s, a, p.push(0u8), k);
    }
    assert(cstr_text(s, a, how) =~= Seq::new(p.len(), |k: int| display_char(how, p[k])));
}

proof fn lemma_occurs_suffix(d: Seq<u8>, b: int, a: int, t: Seq<u8>)
    requires
        occurs(d, a, t),
        0 <= b <= a,
    ensures
        occurs(d.subrange(b, d.len() as int), a - b, t),
{
    assert(d.subrange(b, d.len() as int).subrange(a - b, a - b + t.len()) =~= d.subrange(a, a + t.len()));
}

/// A manifest record written at `p` is read back as one record, followed by
/// whatever is read from the end of its value on.
proof fn lemma_tlv_record_at(d: Seq<u8>, p: int, end: int, tag: Seq<u8>, value: Seq<u8>)
    requires
        occurs(d, p, tlv_bytes(tag, value)),
        value.len() <= u32::MAX,
        p + 8 + value.len() <= end,
    ensures
        tlv_records(d, p, end) == seq![Tlv { tag: le32(tag4(tag), 0) as u32, start: p + 8, len: value.len() as int }]
            + tlv_records(d, p + 8 + value.len(), end),
        occurs(d, p + 8, value),
{
    let t = tlv_bytes(tag, value);
    lemma_u32_bytes(value.len() as u32);
    assert(value.len() % 0x1_0000_0000 == value.len());
    lemma_occurs_le32(d, p, t, 0);
    lemma_occurs_le32(d, p, t, 4);
    assert(le32(t, 0) == le32(tag4(tag), 0));
    assert(le32(t, 4) == value.len());
    assert(d.subrange(p + 8, p + 8 + value.len()) =~= value) by {
        assert forall|k: int| 0 <= k < value.len() implies d[p + 8 + k] == value[k] by {
            lemma_occurs_index(d, p, t, 8 + k);
        }
    }
}

/// No path contains a NUL byte.
pub open spec fn paths_have_no_nul(files: Seq<(Seq<u8>, Seq<u8>)>) -> bool {
    forall|i: int, k: int| 0 <= i < files.len() && 0 <= k < files[i].0.len() ==> #[trigger] files[i].0[k] != 0
}

/// How a stored path reads back: ASCII bytes as themselves, others as U+FFFD.
pub open spec fn stored_path_text(p: Seq<u8>) -> Seq<char> {
    Seq::new(p.len(), |k: int| display_char(ByteDisplay::AsciiOrReplacement, p[k]))
}

/// Where the pieces of a built package lie.
proof fn lemma_layout(nb: Seq<u8>, vb: Seq<u8>, db: Seq<u8>, files: Seq<(Seq<u8>, Seq<u8>)>)
    requires
        package_size(nb, vb, db, files) <= u32::MAX,
    ensures ({
        let m = manifest_bytes(nb, vb, db);
        let n = files.len() as int;
        let ds = data_start(nb, vb, db, files);
        let d = package_bytes(nb, vb, db, files);
        let tp = table_pieces(files, ds);
        &&& occurs(d, 0, header_bytes(m.len() as int, n))
        &&& occurs(d, 32, m)
        &&& occurs(d, 32 + m.len() as int, flatten(tp))
        &&& occurs(d, 32 + m.len() + 32 * n, flatten(pool_pieces(files)))
        &&& occurs(d, ds, flatten(file_contents(files)))
        &&& ds == 32 + m.len() + 32 * n + prefix_len(pool_pieces(files), n)
        &&& d.len() == package_size(nb, vb, db, files)
        &&& flatten(tp).len() == 32 * n
        &&& forall|k: int| 0 <= k < n ==> (#[trigger] tp[k]).len() == 32
        &&& 0 <= prefix_len(file_contents(files), n)
    }),
{
    let m = manifest_bytes(nb, vb, db);
    let n = files.len() as int;
    let ds = data_start(nb, vb, db, files);
    let tp = table_pieces(files, ds);
    let h = header_bytes(m.len() as int, n);
    let table = flatten(tp);
    let pool = flatten(pool_pieces(files));
    let data = flatten(file_contents(files));
    lemma_flatten_len(pool_pieces(files));
    lemma_flatten_len(file_contents(files));
    lemma_flatten_len(tp);
    lemma_prefix_len_mono(file_contents(files), 0, n);
    lemma_prefix_len_mono(pool_pieces(files), 0, n);
    assert forall|k: int| 0 <= k < n implies (#[trigger] tp[k]).len() == 32 by {
        lemma_u32_bytes(0);
    }
    lemma_prefix_len_uniform(tp, 32, n);
    lemma_header_fields(m.len() as int, n);
    let a1 = h + m;
    let a2 = a1 + table;
    let a3 = a2 + pool;
    reveal(package_bytes);
    lemma_occurs_concat(h, m);
    lemma_occurs_concat(a1, table);
    lemma_occurs_concat(a2, pool);
    lemma_occurs_concat(a3, data);
    lemma_occurs_trans(a3 + data, 0, a3, 0, a2);
    lemma_occurs_trans(a3 + data, 0, a2, 0, a1);
    lemma_occurs_trans(a3 + data, 0, a1, 0, h);
    lemma_occurs_trans(a3 + data, 0, a1, 32, m);
    lemma_occurs_trans(a3 + data, 0, a2, a1.len() as int, table);
    lemma_occurs_trans(a3 + data, 0, a3, a2.len() as int, pool);
}

/// The manifest of a built package reads back as its name, version and description.
proof fn lemma_manifest_roundtrip(name: Seq<char>, version: Seq<char>, description: Seq<char>, d: Seq<u8>)
    requires
        occurs(d, 32, manifest_bytes(encode_utf8(name), encode_utf8(version), encode_utf8(description))),
        manifest_bytes(encode_utf8(name), encode_utf8(version), encode_utf8(description)).len() <= u32::MAX,
    ensures ({
        let m = manifest_bytes(encode_utf8(name), encode_utf8(version), encode_utf8(description));
        let recs = tlv_records(d, 32, 32 + m.len() as int);
        &&& tlv_text(d, recs, TAG_NAME) == name
        &&& tlv_text(d, recs, TAG_VER) == version
        &&& tlv_text(d, recs, TAG_DESC) == description
    }),
{
    let nb = encode_utf8(name);
    let vb = encode_utf8(version);
    let db = encode_utf8(description);
    let m = manifest_bytes(nb, vb, db);
    let end: int = 32 + m.len() as int;
    let t1 = tlv_bytes(tag_name_bytes(), nb);
    let t2 = tlv_bytes(tag_ver_bytes(), vb);
    let t3 = if db.len() > 0 { tlv_bytes(tag_desc_bytes(), db) } else { seq![] };
    let t4 = tlv_bytes(tag_arch_bytes(), arch_value());
    assert(m == t1 + t2 + t3 + t4);
    lemma_occurs_concat(t1, t2);
    lemma_occurs_concat(t1 + t2, t3);
    lemma_occurs_concat(t1 + t2 + t3, t4);
    lemma_occurs_trans(d, 32, m, 0, t1 + t2 + t3);
    lemma_occurs_trans(d, 32, t1 + t2 + t3, 0, t1 + t2);
    lemma_occurs_trans(d, 32, t1 + t2, 0, t1);
    lemma_occurs_trans(d, 32, t1 + t2, t1.len() as int, t2);
    lemma_occurs_trans(d, 32, m, (t1 + t2 + t3).len() as int, t4);
    assert(tag4(tag_name_bytes()) =~= tag_name_bytes());
    assert(tag4(tag_ver_bytes()) =~= tag_ver_bytes());
    assert(tag4(tag_desc_bytes()) =~= tag_desc_bytes());
    assert(tag4(tag_arch_bytes()) =~= tag_arch_bytes());
    let p1: int = 32 + t1.len() as int;
    let p2: int = p1 + t2.len() as int;
    let p3: int = p2 + t3.len() as int;
    lemma_tlv_record_at(d, 32, end, tag_name_bytes(), nb);
    lemma_tlv_record_at(d, p1, end, tag_ver_bytes(), vb);
    lemma_tlv_record_at(d, p3, end, tag_arch_bytes(), arch_value());
    let r1 = Tlv { tag: TAG_NAME, start: 40int, len: nb.len() as int };
    let r2 = Tlv { tag: TAG_VER, start: p1 + 8, len: vb.len() as int };
    let r4 = Tlv { tag: TAG_ARCH, start: p3 + 8, len: 6 };
    assert(tlv_records(d, end, end) == Seq::<Tlv>::empty());
    encode_utf8_valid_utf8(name);
    encode_utf8_decode_utf8(name);
    encode_utf8_valid_utf8(version);
    encode_utf8_decode_utf8(version);
    encode_utf8_valid_utf8(description);
    encode_utf8_decode_utf8(description);
    reveal_with_fuel(last_tlv, 5);
    if db.len() > 0 {
        lemma_occurs_trans(d, 32, t1 + t2 + t3, (t1 + t2).len() as int, t3);
        lemma_tlv_record_at(d, p2, end, tag_desc_bytes(), db);
        let r3 = Tlv { tag: TAG_DESC, start: p2 + 8, len: db.len() as int };
        let recs = seq![r1, r2, r3, r4];
        assert(tlv_records(d, 32, end) =~= recs);
        assert(recs.drop_last() =~= seq![r1, r2, r3]);
        assert(recs.drop_last().drop_last() =~= seq![r1, r2]);
        assert(recs.drop_last().drop_last().drop_last() =~= seq![r1]);
        assert(last_tlv(recs, TAG_NAME) == Some(r1));
        assert(last_tlv(recs, TAG_VER) == Some(r2));
        assert(last_tlv(recs, TAG_DESC) == Some(r3));
    } else {
        assert(p2 == p3);
        let recs = seq![r1, r2, r4];
        assert(tlv_records(d, 32, end) =~= recs);
        assert(recs.drop_last() =~= seq![r1, r2]);
        assert(recs.drop_last().drop_last() =~= seq![r1]);
        assert(recs.drop_last().drop_last().drop_last() =~= Seq::<Tlv>::empty());
        assert(last_tlv(recs, TAG_NAME) == Some(r1));
        assert(last_tlv(recs, TAG_VER) == Some(r2));
        assert(last_tlv(recs, TAG_DESC) == None::<Tlv>);
        assert(description =~= Seq::<char>::empty());
    }
}

/// Entry `i` of a built package reads back as file `i`.
/// The file-table entry of file `i` of a built package: where its data lies,
/// and its checksum.
proof fn lemma_entry_table(nb: Seq<u8>, vb: Seq<u8>, db: Seq<u8>, files: Seq<(Seq<u8>, Seq<u8>)>, i: int)
    requires
        package_size(nb, vb, db, files) <= u32::MAX,
        0 <= i < files.len(),
    ensures ({
        let d = package_bytes(nb, vb, db, files);
        let base = 32 + manifest_bytes(nb, vb, db).len() as int + 32 * i;
        let off = data_start(nb, vb, db, files) + prefix_len(file_contents(files), i);
        &&& le32(d, base) == prefix_len(pool_pieces(files), i)
        &&& le32(d, base + 4) == off
        &&& le32(d, base + 8) == files[i].1.len()
        &&& le32(d, base + 12) == crc32(files[i].1)
        &&& off + files[i].1.len() <= d.len()
        &&& d.subrange(off, off + files[i].1.len()) == files[i].1
    }),
{
    let m = manifest_bytes(nb, vb, db);
    let n = files.len() as int;
    let ds = data_start(nb, vb, db, files);
    let d = package_bytes(nb, vb, db, files);
    let tp = table_pieces(files, ds);
    let pieces = pool_pieces(files);
    let contents = file_contents(files);
    let data = flatten(contents);
    lemma_layout(nb, vb, db, files);
    let tstart: int = 32 + m.len() as int;
    lemma_flatten_occurs(tp, i);
    lemma_prefix_len_uniform(tp, 32, i);
    lemma_occurs_trans(d, tstart, flatten(tp), 32 * i, tp[i]);
    lemma_prefix_len_mono(pieces, i, n);
    lemma_prefix_len_mono(contents, i + 1, n);
    lemma_prefix_len_mono(contents, 0, i);
    assert(prefix_len(contents, i + 1) == prefix_len(contents, i) + contents[i].len());
    assert(contents[i] == files[i].1);
    lemma_entry_fields(files, ds, i);
    let base = tstart + 32 * i;
    lemma_occurs_le32(d, base, tp[i], 0);
    lemma_occurs_le32(d, base, tp[i], 4);
    lemma_occurs_le32(d, base, tp[i], 8);
    lemma_occurs_le32(d, base, tp[i], 12);
    lemma_flatten_occurs(contents, i);
    lemma_occurs_trans(d, ds, data, prefix_len(contents, i), contents[i]);
}

/// The path of file `i` of a built package, read from its string pool.
proof fn lemma_entry_path(nb: Seq<u8>, vb: Seq<u8>, db: Seq<u8>, files: Seq<(Seq<u8>, Seq<u8>)>, i: int)
    requires
        package_size(nb, vb, db, files) <= u32::MAX,
        paths_have_no_nul(files),
        0 <= i < files.len(),
    ensures ({
        let d = package_bytes(nb, vb, db, files);
        let pstart = 32 + manifest_bytes(nb, vb, db).len() as int + 32 * files.len() as int;
        cstr_text(d.subrange(pstart, d.len() as int), prefix_len(pool_pieces(files), i), ByteDisplay::AsciiOrReplacement)
            == stored_path_text(files[i].0)
    }),
{
    let m = manifest_bytes(nb, vb, db);
    let n = files.len() as int;
    let d = package_bytes(nb, vb, db, files);
    let pieces = pool_pieces(files);
    let pool = flatten(pieces);
    lemma_layout(nb, vb, db, files);
    let pstart: int = 32 + m.len() as int + 32 * n;
    let sub = d.subrange(pstart, d.len() as int);
    lemma_occurs_suffix(d, pstart, pstart, pool);
    lemma_flatten_occurs(pieces, i);
    assert(pieces[i] == files[i].0.push(0u8));
    lemma_occurs_trans(sub, 0, pool, prefix_len(pieces, i), pieces[i]);
    assert forall|k: int| 0 <= k < files[i].0.len() implies #[trigger] files[i].0[k] != 0 by {
        assert(files[i].0[k] != 0);
    }
    lemma_cstr_of_piece(sub, prefix_len(pieces, i), files[i].0, ByteDisplay::AsciiOrReplacement);
}

/// Entry `i` of a built package reads back as file `i`.
proof fn lemma_entry_roundtrip(nb: Seq<u8>, vb: Seq<u8>, db: Seq<u8>, files: Seq<(Seq<u8>, Seq<u8>)>, i: int)
    requires
        package_size(nb, vb, db, files) <= u32::MAX,
        paths_have_no_nul(files),
        0 <= i < files.len(),
        le32(package_bytes(nb, vb, db, files), 16) == 32,
        le32(package_bytes(nb, vb, db, files), 20) == manifest_bytes(nb, vb, db).len(),
        le32(package_bytes(nb, vb, db, files), 24) == files.len(),
    ensures
        nxp_entry_fits(package_bytes(nb, vb, db, files), i),
        nxp_entry_view(package_bytes(nb, vb, db, files), i) == (EntryView {
            path: stored_path_text(files[i].0),
            data: files[i].1,
            crc32: crc32(files[i].1),
        }),
{
    let d = package_bytes(nb, vb, db, files);
    lemma_entry_table(nb, vb, db, files, i);
    lemma_entry_path(nb, vb, db, files, i);
    assert(nxp_entry_path(d, i) == stored_path_text(files[i].0));
}

/// Reading back a package that was just built succeeds. It gives the name,
/// version and description the package was built with, format version 1.0,
/// no flags, a header checksum that matches the header bytes it covers, and
/// every file, in order, with its path, its contents and their checksum.
pub proof fn lemma_package_roundtrip(
    name: Seq<char>,
    version: Seq<char>,
    description: Seq<char>,
    files: Seq<(Seq<u8>, Seq<u8>)>,
)
    requires
        package_size(encode_utf8(name), encode_utf8(version), encode_utf8(description), files) <= u32::MAX,
        paths_have_no_nul(files),
    ensures ({
        let d = package_bytes(encode_utf8(name), encode_utf8(version), encode_utf8(description), files);
        let v = nxp_view(d);
        &&& nxp_well_formed(d)
        &&& v.name == name
        &&& v.version == version
        &&& v.description == description
        &&& v.ver_major == 1
        &&& v.ver_minor == 0
        &&& v.flags == 0
        &&& v.header_crc == crc32(d.subrange(8, 32))
        &&& v.entries.len() == files.len()
        &&& forall|i: int| 0 <= i < files.len() ==> #[trigger] v.entries[i] == (EntryView {
            path: stored_path_text(files[i].0),
            data: files[i].1,
            crc32: crc32(files[i].1),
        })
    }),
{
    let nb = encode_utf8(name);
    let vb = encode_utf8(version);
    let db = encode_utf8(description);
    let m = manifest_bytes(nb, vb, db);
    let n = files.len() as int;
    let d = package_bytes(nb, vb, db, files);
    let h = header_bytes(m.len() as int, n);
    lemma_layout(nb, vb, db, files);
    lemma_header_fields(m.len() as int, n);
    lemma_occurs_le32(d, 0, h, 0);
    lemma_occurs_le32(d, 0, h, 4);
    lemma_occurs_le16(d, 0, h, 8);
    lemma_occurs_le16(d, 0, h, 10);
    lemma_occurs_le32(d, 0, h, 12);
    lemma_occurs_le32(d, 0, h, 16);
    lemma_occurs_le32(d, 0, h, 20);
    lemma_occurs_le32(d, 0, h, 24);
    assert(d.subrange(8, 32) =~= h.subrange(8, 32));
    lemma_manifest_roundtrip(name, version, description, d);
    assert forall|i: int| 0 <= i < n implies #[trigger] nxp_entry_fits(d, i) by {
        lemma_entry_roundtrip(nb, vb, db, files, i);
    }
    let v = nxp_view(d);
    assert forall|i: int| 0 <= i < files.len() implies #[trigger] v.entries[i] == (EntryView {
        path: stored_path_text(files[i].0),
        data: files[i].1,
        crc32: crc32(files[i].1),
    }) by {
        lemma_entry_roundtrip(nb, vb, db, files, i);
    }
}

proof fn lemma_no_mismatches(es: Seq<EntryView>)
    requires
        forall|i: int| 0 <= i < es.len() ==> crc32((#[trigger] es[i]).data) == es[i].crc32,
    ensures
        crc_mismatches(es) == Seq::<CrcMismatchView>::empty(),
    decreases es.len(),
{
    if es.len() > 0 {
        let init = es.drop_last();
        assert forall|i: int| 0 <= i < init.len() implies crc32((#[trigger] init[i]).data) == init[i].crc32 by {
            assert(init[i] == es[i]);
        }
        lemma_no_mismatches(init);
        assert(crc32(es[es.len() - 1].data) == es[es.len() - 1].crc32);
    }
}

/// A package that was just built passes every checksum check: the header
/// checksum matches the header bytes it covers and no file's checksum differs
/// from the checksum of its data.
pub proof fn lemma_built_package_verifies(
    name: Seq<char>,
    version: Seq<char>,
    description: Seq<char>,
    files: Seq<(Seq<u8>, Seq<u8>)>,
)
    requires
        package_size(encode_utf8(name), encode_utf8(version), encode_utf8(description), files) <= u32::MAX,
        paths_have_no_nul(files),
    ensures ({
        let d = package_bytes(encode_utf8(name), encode_utf8(version), encode_utf8(description), files);
        &&& nxp_view(d).header_crc == crc32(d.subrange(8, 32))
        &&& crc_mismatches(nxp_view(d).entries) == Seq::<CrcMismatchView>::empty()
        &&& nxp_verifies(d)
    }),
{
    lemma_package_roundtrip(name, version, description, files);
    lemma_header_in_package(encode_utf8(name), encode_utf8(version), encode_utf8(description), files);
    let d = package_bytes(encode_utf8(name), encode_utf8(version), encode_utf8(description), files);
    let es = nxp_view(d).entries;
    assert forall|i: int| 0 <= i < es.len() implies crc32((#[trigger] es[i]).data) == es[i].crc32 by {
        assert(es[i] == (EntryView { path: stored_path_text(files[i].0), data: files[i].1, crc32: crc32(files[i].1) }));
    }
    lemma_no_mismatches(es);
}

/// A path made of ASCII characters is stored and read back unchanged.
pub proof fn lemma_ascii_path_reads_back(p: Seq<char>)
    requires
        is_ascii_chars(p),
    ensures
        stored_path_text(encode_utf8(p)) == p,
{
    is_ascii_chars_encode_utf8(p);
    assert forall|i: int| 0 <= i < p.len() implies #[trigger] stored_path_text(encode_utf8(p))[i] == p[i] by {
        assert(encode_utf8(p)[i] == p[i] as u8);
        assert((p[i] as u32) < 128);
    }
    assert(stored_path_text(encode_utf8(p)) =~= p);
}

/// The header fields of a built package.
proof fn lemma_header_in_package(nb: Seq<u8>, vb: Seq<u8>, db: Seq<u8>, files: Seq<(Seq<u8>, Seq<u8>)>)
    requires
        package_size(nb, vb, db, files) <= u32::MAX,
    ensures ({
        let d = package_bytes(nb, vb, db, files);
        &&& d.len() >= 32
        &&& le32(d, 0) == MAGIC_NXP1
        &&& le32(d, 4) == crc32(d.subrange(8, 32))
        &&& le32(d, 16) == 32
        &&& le32(d, 20) == manifest_bytes(nb, vb, db).len()
        &&& le32(d, 24) == files.len()
    }),
{
    let m = manifest_bytes(nb, vb, db);
    let n = files.len() as int;
    let d = package_bytes(nb, vb, db, files);
    let h = header_bytes(m.len() as int, n);
    lemma_layout(nb, vb, db, files);
    lemma_header_fields(m.len() as int, n);
    lemma_occurs_le32(d, 0, h, 0);
    lemma_occurs_le32(d, 0, h, 4);
    lemma_occurs_le32(d, 0, h, 16);
    lemma_occurs_le32(d, 0, h, 20);
    lemma_occurs_le32(d, 0, h, 24);
    assert(d.subrange(8, 32) =~= h.subrange(8, 32));
}

proof fn lemma_le32_unchanged(d: Seq<u8>, d2: Seq<u8>, p: int, k: int)
    requires
        d2.len() == d.len(),
        0 <= p,
        p + 4 <= d.len(),
        k < p || k >= p + 4,
        forall|j: int| 0 <= j < d2.len() && j != k ==> d2[j] == d[j],
    ensures
        le32(d2, p) == le32(d, p),
{
    assert(d2[p] == d[p] && d2[p + 1] == d[p + 1] && d2[p + 2] == d[p + 2] && d2[p + 3] == d[p + 3]);
}

proof fn lemma_le32_changed(d: Seq<u8>, d2: Seq<u8>, p: int, k: int)
    requires
        d2.len() == d.len(),
        0 <= p <= k < p + 4 <= d.len(),
        d2[k] != d[k],
        forall|j: int| 0 <= j < d2.len() && j != k ==> d2[j] == d[j],
    ensures
        le32(d2, p) != le32(d, p),
{
    assert(k == p || k == p + 1 || k == p + 2 || k == p + 3);
    if k == p {
        assert(d2[p + 1] == d[p + 1] && d2[p + 2] == d[p + 2] && d2[p + 3] == d[p + 3]);
    } else if k == p + 1 {
        assert(d2[p] == d[p] && d2[p + 2] == d[p + 2] && d2[p + 3] == d[p + 3]);
    } else if k == p + 2 {
        assert(d2[p] == d[p] && d2[p + 1] == d[p + 1] && d2[p + 3] == d[p + 3]);
    } else {
        assert(d2[p] == d[p] && d2[p + 1] == d[p + 1] && d2[p + 2] == d[p + 2]);
    }
}

proof fn lemma_one_byte_subrange(d: Seq<u8>, d2: Seq<u8>, a: int, b: int, k: int)
    requires
        d2.len() == d.len(),
        0 <= a <= k < b <= d.len(),
        d2[k] != d[k],
        forall|j: int| 0 <= j < d2.len() && j != k ==> d2[j] == d[j],
    ensures
        crc32(d2.subrange(a, b)) != crc32(d.subrange(a, b)),
{
    let s1 = d2.subrange(a, b);
    let s2 = d.subrange(a, b);
    assert forall|m: int| 0 <= m < s1.len() && m != k - a implies s1[m] == s2[m] by {
        assert(s1[m] == d2[a + m] && s2[m] == d[a + m]);
    }
    assert(s1[k - a] != s2[k - a]);
    lemma_crc32_detects_one_byte(s1, s2, k - a);
}

proof fn lemma_mismatch_listed(es: Seq<EntryView>, i: int)
    requires
        0 <= i < es.len(),
        crc32(es[i].data) != es[i].crc32,
    ensures
        crc_mismatches(es).len() > 0,
    decreases es.len(),
{
    if i < es.len() - 1 {
        assert(es.drop_last()[i] == es[i]);
        lemma_mismatch_listed(es.drop_last(), i);
    }
}

/// Changing any one byte of a freshly built package, in its header or in the
/// data of one of its files, is always caught: reading the result fails, or
/// the header checksum or that file's checksum no longer matches.
pub proof fn lemma_one_byte_change_detected(
    name: Seq<char>,
    version: Seq<char>,
    description: Seq<char>,
    files: Seq<(Seq<u8>, Seq<u8>)>,
    d2: Seq<u8>,
    k: int,
)
    requires
        package_size(encode_utf8(name), encode_utf8(version), encode_utf8(description), files) <= u32::MAX,
        paths_have_no_nul(files),
        d2.len() == package_bytes(encode_utf8(name), encode_utf8(version), encode_utf8(description), files).len(),
        0 <= k < d2.len(),
        d2[k] != package_bytes(encode_utf8(name), encode_utf8(version), encode_utf8(description), files)[k],
        forall|j: int| 0 <= j < d2.len() && j != k ==> d2[j] == package_bytes(
            encode_utf8(name),
            encode_utf8(version),
            encode_utf8(description),
            files,
        )[j],
        k < 32 || exists|i: int| #![trigger prefix_len(file_contents(files), i)] 0 <= i < files.len() && data_start(
            encode_utf8(name),
            encode_utf8(version),
            encode_utf8(description),
            files,
        ) + prefix_len(file_contents(files), i) <= k < data_start(
            encode_utf8(name),
            encode_utf8(version),
            encode_utf8(description),
            files,
        ) + prefix_len(file_contents(files), i) + files[i].1.len(),
    ensures
        !nxp_verifies(d2),
{
    let nb = encode_utf8(name);
    let vb = encode_utf8(version);
    let db = encode_utf8(description);
    let d = package_bytes(nb, vb, db, files);
    lemma_header_in_package(nb, vb, db, files);
    if k < 4 {
        lemma_le32_changed(d, d2, 0, k);
        assert(!nxp_header_ok(d2));
    } else if k < 8 {
        lemma_le32_changed(d, d2, 4, k);
        assert(d2.subrange(8, 32) =~= d.subrange(8, 32));
    } else if k < 32 {
        lemma_le32_unchanged(d, d2, 4, k);
        lemma_one_byte_subrange(d, d2, 8, 32, k);
    } else {
        let i = choose|i: int| #![trigger prefix_len(file_contents(files), i)] 0 <= i < files.len() && data_start(nb, vb, db, files) + prefix_len(
            file_contents(files),
            i,
        ) <= k < data_start(nb, vb, db, files) + prefix_len(file_contents(files), i) + files[i].1.len();
        let m = manifest_bytes(nb, vb, db);
        let n = files.len() as int;
        let ds = data_start(nb, vb, db, files);
        lemma_layout(nb, vb, db, files);
        lemma_prefix_len_mono(pool_pieces(files), 0, n);
        lemma_prefix_len_mono(file_contents(files), 0, i);
        lemma_entry_table(nb, vb, db, files, i);
        let base = 32 + m.len() as int + 32 * i;
        assert(base + 16 <= ds);
        lemma_le32_unchanged(d, d2, 16, k);
        lemma_le32_unchanged(d, d2, 20, k);
        lemma_le32_unchanged(d, d2, 24, k);
        lemma_le32_unchanged(d, d2, base + 4, k);
        lemma_le32_unchanged(d, d2, base + 8, k);
        lemma_le32_unchanged(d, d2, base + 12, k);
        assert(nxp_entry_base(d2, i) == base);
        let off = ds + prefix_len(file_contents(files), i);
        let len = files[i].1.len() as int;
        assert(nxp_entry_data_off(d2, i) == off);
        assert(nxp_entry_data_size(d2, i) == len);
        assert(nxp_entry_crc(d2, i) == crc32(files[i].1));
        lemma_one_byte_subrange(d, d2, off, off + len, k);
        if nxp_verifies(d2) {
            let es = nxp_view(d2).entries;
            assert(nxp_entry_count(d2) == n);
            assert(es[i] == nxp_entry_view(d2, i));
            assert(es[i].data == d2.subrange(off, off + len));
            lemma_mismatch_listed(es, i);
        }
    }
}

} // verus!
