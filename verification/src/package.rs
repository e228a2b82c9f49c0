//! Writing NXP packages: manifest records, file-table flags and the package image.

use vstd::prelude::*;
use vstd::utf8::encode_utf8;
use crate::crc::{crc32, crc32_calc};
use crate::nxp::MAGIC_NXP1;
use crate::seqs::{
    flatten, prefix_len, u16_bytes, u32_bytes, lemma_flatten_take_step, lemma_flatten_take_all,
    lemma_prefix_len_mono, lemma_flatten_len,
};

verus! {

/// File-table flag: an executable (`.nxe`) or library (`.nxl`).
pub const FLAG_EXECUTABLE: u32 = 1;
/// File-table flag: a configuration file.
pub const FLAG_CONFIG: u32 = 2;
/// File-table flag: a locale file.
pub const FLAG_LOCALE: u32 = 4;

/// `tag` cut or padded with zero bytes to exactly four bytes.
pub open spec fn tag4(tag: Seq<u8>) -> Seq<u8> {
    Seq::new(4, |i: int| if i < tag.len() { tag[i] } else { 0u8 })
}

/// A manifest record: the four tag bytes, the value's length (modulo 2^32) and the value.
pub open spec fn tlv_bytes(tag: Seq<u8>, value: Seq<u8>) -> Seq<u8> {
    tag4(tag) + u32_bytes((value.len() % 0x1_0000_0000) as u32) + value
}

/// `s` ends with `p`.
pub open spec fn ends_with(s: Seq<u8>, p: Seq<u8>) -> bool {
    p.len() <= s.len() && s.subrange(s.len() - p.len(), s.len() as int) == p
}

/// `p` occurs somewhere in `s`.
pub open spec fn contains(s: Seq<u8>, p: Seq<u8>) -> bool {
    exists|i: int| 0 <= i && i + p.len() <= s.len() && #[trigger] s.subrange(i, i + p.len()) == p
}

pub open spec fn ext_nxe() -> Seq<u8> {
    seq![0x2eu8, 0x6e, 0x78, 0x65]
}

pub open spec fn ext_nxl() -> Seq<u8> {
    seq![0x2eu8, 0x6e, 0x78, 0x6c]
}

pub open spec fn word_locale() -> Seq<u8> {
    seq![0x6cu8, 0x6f, 0x63, 0x61, 0x6c, 0x65]
}

pub open spec fn word_config() -> Seq<u8> {
    seq![0x63u8, 0x6f, 0x6e, 0x66, 0x69, 0x67]
}

pub open spec fn ext_ini() -> Seq<u8> {
    seq![0x2eu8, 0x69, 0x6e, 0x69]
}

pub open spec fn ext_toml() -> Seq<u8> {
    seq![0x2eu8, 0x74, 0x6f, 0x6d, 0x6c]
}

/// The file-table flags of a file with the given path bytes.
pub open spec fn path_flags(p: Seq<u8>) -> u32 {
    if ends_with(p, ext_nxe()) || ends_with(p, ext_nxl()) {
        FLAG_EXECUTABLE
    } else if contains(p, word_locale()) {
        FLAG_LOCALE
    } else if contains(p, word_config()) || contains(p, ext_ini()) || contains(p, ext_toml()) {
        FLAG_CONFIG
    } else {
        0
    }
}

/// Appends `src` to `out`.
pub fn extend_bytes(out: &mut Vec<u8>, src: &[u8])
    ensures
        final(out)@ == old(out)@ + src@,
{
    let mut j: usize = 0;
    while j < src.len()
        invariant
            j <= src@.len(),
            out@ == old(out)@ + src@.take(j as int),
        decreases src@.len() - j,
    {
        proof {
            assert(src@.take(j + 1) =~= src@.take(j as int).push(src@[j as int]));
        }
        out.push(src[j]);
        j = j + 1;
    }
    assert(src@.take(j as int) =~= src@);
}

/// Appends the little-endian bytes of `x` to `out`.
pub fn push_u32(out: &mut Vec<u8>, x: u32)
    ensures
        final(out)@ == old(out)@ + u32_bytes(x),
{
    out.push((x & 0xff) as u8);
    out.push(((x >> 8) & 0xff) as u8);
    out.push(((x >> 16) & 0xff) as u8);
    out.push((x >> 24) as u8);
    assert(out@ =~= old(out)@ + u32_bytes(x));
}

/// Appends the little-endian bytes of `x` to `out`.
pub fn push_u16(out: &mut Vec<u8>, x: u16)
    ensures
        final(out)@ == old(out)@ + u16_bytes(x),
{
    out.push((x & 0xff) as u8);
    out.push((x >> 8) as u8);
    assert(out@ =~= old(out)@ + u16_bytes(x));
}

/// Builds a manifest record: the tag cut or zero-padded to four bytes, the
/// value's length as a little-endian `u32` (modulo 2^32), then the value.
pub fn make_tlv(tag: &[u8], value: &[u8]) -> (r: Vec<u8>)
    ensures
        r@ == tlv_bytes(tag@, value@),
{
    let mut buf: Vec<u8> = Vec::new();
    let mut k: usize = 0;
    while k < 4
        invariant
            k <= 4,
            buf@ =~= tag4(tag@).take(k as int),
        decreases 4 - k,
    {
        if k < tag.len() {
            buf.push(tag[k]);
        } else {
            buf.push(0);
        }
        k = k + 1;
    }
    assert(tag4(tag@).take(4) =~= tag4(tag@));
    let len = (value.len() as u64 % 0x1_0000_0000) as u32;
    push_u32(&mut buf, len);
    extend_bytes(&mut buf, value);
    buf
}

/// Whether `s` ends with `p`.
pub fn bytes_end_with(s: &[u8], p: &[u8]) -> (b: bool)
    ensures
        b == ends_with(s@, p@),
{
    if p.len() > s.len() {
        return false;
    }
    let base = s.len() - p.len();
    let mut k: usize = 0;
    while k < p.len()
        invariant
            base == s@.len() - p@.len(),
            s@.len() <= usize::MAX,
            k <= p@.len(),
            forall|j: int| 0 <= j < k ==> s@[base + j] == p@[j],
        decreases p@.len() - k,
    {
        if s[base + k] != p[k] {
            assert(s@.subrange(base as int, s@.len() as int)[k as int] != p@[k as int]);
            return false;
        }
        k = k + 1;
    }
    assert(s@.subrange(base as int, s@.len() as int) =~= p@);
    true
}

/// Whether `p` occurs somewhere in `s`.
pub fn bytes_contain(s: &[u8], p: &[u8]) -> (b: bool)
    ensures
        b == contains(s@, p@),
{
    if p.len() > s.len() {
        return false;
    }
    if p.len() == 0 {
        assert(s@.subrange(0int, 0int + p@.len()) =~= p@);
        return true;
    }
    let last = s.len() - p.len();
    let mut i: usize = 0;
    while i <= last
        invariant
            last == s@.len() - p@.len(),
            p@.len() > 0,
            s@.len() <= usize::MAX,
            i <= last + 1,
            forall|j: int| 0 <= j < i ==> #[trigger] s@.subrange(j, j + p@.len()) != p@,
        decreases last + 1 - i,
    {
        let mut k: usize = 0;
        let mut same = true;
        while k < p.len()
            invariant
                i <= last,
                last == s@.len() - p@.len(),
                s@.len() <= usize::MAX,
                k <= p@.len(),
                same ==> forall|j: int| 0 <= j < k ==> s@[i + j] == p@[j],
                !same ==> s@.subrange(i as int, i + p@.len()) != p@,
            decreases p@.len() - k,
        {
            if s[i + k] != p[k] {
                assert(s@.subrange(i as int, i + p@.len())[k as int] != p@[k as int]);
                same = false;
            }
            k = k + 1;
        }
        if same {
            assert(s@.subrange(i as int, i + p@.len()) =~= p@);
            return true;
        }
        i = i + 1;
    }
    assert forall|j: int| 0 <= j && j + p@.len() <= s@.len() implies #[trigger] s@.subrange(j, j + p@.len()) != p@ by {
        assert(j < i);
    }
    false
}

/// The file-table flags for a file at `path`: executable for `.nxe` and `.nxl`
/// files, else locale when the path mentions `locale`, else config when it
/// mentions `config`, `.ini` or `.toml`, else none.
pub fn entry_flags(path: &str) -> (f: u32)
    ensures
        f == path_flags(encode_utf8(path@)),
{
    let p = path.as_bytes();
    let nxe: Vec<u8> = vec![0x2e, 0x6e, 0x78, 0x65];
    let nxl: Vec<u8> = vec![0x2e, 0x6e, 0x78, 0x6c];
    let locale: Vec<u8> = vec![0x6c, 0x6f, 0x63, 0x61, 0x6c, 0x65];
    let config: Vec<u8> = vec![0x63, 0x6f, 0x6e, 0x66, 0x69, 0x67];
    let ini: Vec<u8> = vec![0x2e, 0x69, 0x6e, 0x69];
    let toml: Vec<u8> = vec![0x2e, 0x74, 0x6f, 0x6d, 0x6c];
    assert(nxe@ =~= ext_nxe());
    assert(nxl@ =~= ext_nxl());
    assert(locale@ =~= word_locale());
    assert(config@ =~= word_config());
    assert(ini@ =~= ext_ini());
    assert(toml@ =~= ext_toml());
    if bytes_end_with(p, nxe.as_slice()) || bytes_end_with(p, nxl.as_slice()) {
        FLAG_EXECUTABLE
    } else if bytes_contain(p, locale.as_slice()) {
        FLAG_LOCALE
    } else if bytes_contain(p, config.as_slice()) || bytes_contain(p, ini.as_slice())
        || bytes_contain(p, toml.as_slice()) {
        FLAG_CONFIG
    } else {
        0
    }
}

/// A file to be packed: its path inside the package and its contents.
pub struct FileEntry {
    pub relative_path: String,
    pub content: Vec<u8>,
}

/// Each file as the bytes of its path and its contents.
pub open spec fn file_bytes(files: Seq<FileEntry>) -> Seq<(Seq<u8>, Seq<u8>)> {
    files.map_values(|f: FileEntry| (encode_utf8(f.relative_path@), f.content@))
}

pub open spec fn file_paths(files: Seq<(Seq<u8>, Seq<u8>)>) -> Seq<Seq<u8>> {
    files.map_values(|f: (Seq<u8>, Seq<u8>)| f.0)
}

pub open spec fn file_contents(files: Seq<(Seq<u8>, Seq<u8>)>) -> Seq<Seq<u8>> {
    files.map_values(|f: (Seq<u8>, Seq<u8>)| f.1)
}

/// Each path followed by its terminating NUL: the pieces of the string pool.
pub open spec fn pool_pieces(files: Seq<(Seq<u8>, Seq<u8>)>) -> Seq<Seq<u8>> {
    files.map_values(|f: (Seq<u8>, Seq<u8>)| f.0.push(0u8))
}

pub open spec fn tag_name_bytes() -> Seq<u8> {
    seq![0x4eu8, 0x41, 0x4d, 0x45]
}

pub open spec fn tag_ver_bytes() -> Seq<u8> {
    seq![0x56u8, 0x45, 0x52, 0x20]
}

pub open spec fn tag_desc_bytes() -> Seq<u8> {
    seq![0x44u8, 0x45, 0x53, 0x43]
}

pub open spec fn tag_arch_bytes() -> Seq<u8> {
    seq![0x41u8, 0x52, 0x43, 0x48]
}

/// `x86_64`
pub open spec fn arch_value() -> Seq<u8> {
    seq![0x78u8, 0x38, 0x36, 0x5f, 0x36, 0x34]
}

/// The manifest: name, version, the description when it is not empty, and the architecture.
pub open spec fn manifest_bytes(name: Seq<u8>, version: Seq<u8>, desc: Seq<u8>) -> Seq<u8> {
    tlv_bytes(tag_name_bytes(), name) + tlv_bytes(tag_ver_bytes(), version) + (if desc.len() > 0 {
        tlv_bytes(tag_desc_bytes(), desc)
    } else {
        seq![]
    }) + tlv_bytes(tag_arch_bytes(), arch_value())
}

/// Where the file contents start.
pub open spec fn data_start(name: Seq<u8>, version: Seq<u8>, desc: Seq<u8>, files: Seq<(Seq<u8>, Seq<u8>)>) -> int {
    (32 + manifest_bytes(name, version, desc).len() + 32 * files.len() + flatten(pool_pieces(files)).len()) as int
}

/// The size of the whole package.
pub open spec fn package_size(name: Seq<u8>, version: Seq<u8>, desc: Seq<u8>, files: Seq<(Seq<u8>, Seq<u8>)>) -> int {
    data_start(name, version, desc, files) + prefix_len(file_contents(files), files.len() as int)
}

/// The file-table entry of file `i` when the contents start at `ds`.
pub open spec fn entry_bytes(files: Seq<(Seq<u8>, Seq<u8>)>, ds: int, i: int) -> Seq<u8> {
    u32_bytes(prefix_len(pool_pieces(files), i) as u32)
        + u32_bytes((ds + prefix_len(file_contents(files), i)) as u32)
        + u32_bytes(files[i].1.len() as u32)
        + u32_bytes(crc32(files[i].1))
        + u32_bytes(path_flags(files[i].0))
        + u32_bytes(0)
        + u32_bytes(0)
        + u32_bytes(0)
}

pub open spec fn table_pieces(files: Seq<(Seq<u8>, Seq<u8>)>, ds: int) -> Seq<Seq<u8>> {
    Seq::new(files.len(), |i: int| entry_bytes(files, ds, i))
}

/// The header bytes covered by the header checksum.
pub open spec fn header_tail(manifest_len: int, count: int) -> Seq<u8> {
    u16_bytes(1) + u16_bytes(0) + u32_bytes(0) + u32_bytes(32) + u32_bytes(manifest_len as u32)
        + u32_bytes(count as u32) + u32_bytes(0)
}

pub open spec fn header_bytes(manifest_len: int, count: int) -> Seq<u8> {
    u32_bytes(MAGIC_NXP1) + u32_bytes(crc32(header_tail(manifest_len, count))) + header_tail(
        manifest_len,
        count,
    )
}

/// The package image: header, manifest, file table, string pool, then the contents
/// of every file in order.
#[verifier::opaque]
pub open spec fn package_bytes(name: Seq<u8>, version: Seq<u8>, desc: Seq<u8>, files: Seq<(Seq<u8>, Seq<u8>)>) -> Seq<u8> {
    let m = manifest_bytes(name, version, desc);
    header_bytes(m.len() as int, files.len() as int) + m + flatten(
        table_pieces(files, data_start(name, version, desc, files)),
    ) + flatten(pool_pieces(files)) + flatten(file_contents(files))
}

/// Builds the manifest of a package.
pub fn build_manifest(name: &str, version: &str, description: &str) -> (m: Vec<u8>)
    ensures
        m@ == manifest_bytes(encode_utf8(name@), encode_utf8(version@), encode_utf8(description@)),
{
    let name_tag: Vec<u8> = vec![0x4e, 0x41, 0x4d, 0x45];
    let ver_tag: Vec<u8> = vec![0x56, 0x45, 0x52, 0x20];
    let desc_tag: Vec<u8> = vec![0x44, 0x45, 0x53, 0x43];
    let arch_tag: Vec<u8> = vec![0x41, 0x52, 0x43, 0x48];
    let arch: Vec<u8> = vec![0x78, 0x38, 0x36, 0x5f, 0x36, 0x34];
    assert(name_tag@ =~= tag_name_bytes());
    assert(ver_tag@ =~= tag_ver_bytes());
    assert(desc_tag@ =~= tag_desc_bytes());
    assert(arch_tag@ =~= tag_arch_bytes());
    assert(arch@ =~= arch_value());
    let mut m: Vec<u8> = Vec::new();
    let t = make_tlv(name_tag.as_slice(), name.as_bytes());
    extend_bytes(&mut m, t.as_slice());
    let t = make_tlv(ver_tag.as_slice(), version.as_bytes());
    extend_bytes(&mut m, t.as_slice());
    let ghost before_desc = m@;
    let d = description.as_bytes();
    if d.len() > 0 {
        let t = make_tlv(desc_tag.as_slice(), d);
        extend_bytes(&mut m, t.as_slice());
    } else {
        assert(m@ =~= before_desc + Seq::<u8>::empty());
    }
    let t = make_tlv(arch_tag.as_slice(), arch.as_slice());
    extend_bytes(&mut m, t.as_slice());
    assert(m@ =~= manifest_bytes(encode_utf8(name@), encode_utf8(version@), encode_utf8(description@)));
    m
}

/// Builds the string pool: every path followed by a NUL.
fn build_pool(files: &Vec<FileEntry>) -> (pool: Vec<u8>)
    ensures
        pool@ == flatten(pool_pieces(file_bytes(files@))),
{
    let ghost fs = file_bytes(files@);
    let ghost pieces = pool_pieces(fs);
    let mut pool: Vec<u8> = Vec::new();
    let mut i: usize = 0;
    proof {
        lemma_flatten_take_all(pieces);
    }
    while i < files.len()
        invariant
            fs == file_bytes(files@),
            pieces == pool_pieces(fs),
            pieces.len() == files@.len(),
            i <= files@.len(),
            pool@ == flatten(pieces.take(i as int)),
        decreases files@.len() - i,
    {
        let path = files[i].relative_path.as_str().as_bytes();
        extend_bytes(&mut pool, path);
        pool.push(0);
        proof {
            lemma_flatten_take_step(pieces, i as int);
            assert(pieces[i as int] == path@.push(0u8));
            assert(pool@ =~= flatten(pieces.take(i as int)) + pieces[i as int]);
        }
        i = i + 1;
    }
    proof {
        lemma_flatten_take_all(pieces);
    }
    pool
}

/// Builds the file table: 32 bytes per file, the contents starting at `ds`.
fn build_table(files: &Vec<FileEntry>, ds: u32) -> (t: Vec<u8>)
    requires
        ds + prefix_len(file_contents(file_bytes(files@)), files@.len() as int) <= u32::MAX,
        prefix_len(pool_pieces(file_bytes(files@)), files@.len() as int) <= u32::MAX,
    ensures
        t@ == flatten(table_pieces(file_bytes(files@), ds as int)),
{
    let ghost fs = file_bytes(files@);
    let ghost pieces = pool_pieces(fs);
    let ghost contents = file_contents(fs);
    let ghost tp = table_pieces(fs, ds as int);
    let n = files.len();
    let mut t: Vec<u8> = Vec::new();
    let mut pool_off: u32 = 0;
    let mut data_off: u32 = ds;
    let mut i: usize = 0;
    proof {
        lemma_flatten_take_all(tp);
    }
    while i < n
        invariant
            n == files@.len(),
            fs == file_bytes(files@),
            pieces == pool_pieces(fs),
            contents == file_contents(fs),
            tp == table_pieces(fs, ds as int),
            ds + prefix_len(contents, n as int) <= u32::MAX,
            prefix_len(pieces, n as int) <= u32::MAX,
            i <= n,
            pool_off == prefix_len(pieces, i as int),
            data_off == ds + prefix_len(contents, i as int),
            t@ == flatten(tp.take(i as int)),
        decreases n - i,
    {
        let path = files[i].relative_path.as_str();
        let content = files[i].content.as_slice();
        let path_len = path.as_bytes().len();
        let crc = crc32_calc(content);
        let flags = entry_flags(path);
        proof {
            assert(fs[i as int] == (encode_utf8(path@), content@));
            assert(pieces[i as int] == encode_utf8(path@).push(0u8));
            assert(contents[i as int] == content@);
            lemma_prefix_len_mono(pieces, i + 1, n as int);
            lemma_prefix_len_mono(contents, i + 1, n as int);
        }
        let mut e: Vec<u8> = Vec::new();
        push_u32(&mut e, pool_off);
        push_u32(&mut e, data_off);
        push_u32(&mut e, content.len() as u32);
        push_u32(&mut e, crc);
        push_u32(&mut e, flags);
        push_u32(&mut e, 0);
        push_u32(&mut e, 0);
        push_u32(&mut e, 0);
        proof {
            assert(e@ =~= entry_bytes(fs, ds as int, i as int));
            lemma_flatten_take_step(tp, i as int);
        }
        extend_bytes(&mut t, e.as_slice());
        pool_off = pool_off + (path_len + 1) as u32;
        data_off = data_off + content.len() as u32;
        i = i + 1;
    }
    proof {
        lemma_flatten_take_all(tp);
    }
    t
}

/// Whether a package of these files fits the format: every offset and size,
/// and the running data offset, must fit in 32 bits.
pub fn package_fits(name: &str, version: &str, description: &str, files: &Vec<FileEntry>) -> (b: bool)
    ensures
        b == (package_size(encode_utf8(name@), encode_utf8(version@), encode_utf8(description@), file_bytes(files@)) <= u32::MAX),
{
    let ghost fs = file_bytes(files@);
    let ghost pieces = pool_pieces(fs);
    let ghost contents = file_contents(fs);
    let limit: u64 = 0xFFFF_FFFF;
    let nl = name.as_bytes().len() as u64;
    let vl = version.as_bytes().len() as u64;
    let dl = description.as_bytes().len() as u64;
    let n = files.len();
    let ghost m = manifest_bytes(encode_utf8(name@), encode_utf8(version@), encode_utf8(description@));
    assert(m.len() == 8 + nl + 8 + vl + (if dl > 0 { 8 + dl } else { 0 }) + 14);
    if nl > limit || vl > limit || dl > limit || n as u64 > limit {
        proof {
            lemma_flatten_len(pieces);
            lemma_prefix_len_mono(pieces, 0, n as int);
            lemma_prefix_len_mono(contents, 0, n as int);
        }
        return false;
    }
    let mut total: u64 = 32 + 8 + nl + 8 + vl + 14 + 32 * (n as u64);
    if dl > 0 {
        total = total + 8 + dl;
    }
    let mut i: usize = 0;
    let ghost size = package_size(encode_utf8(name@), encode_utf8(version@), encode_utf8(description@), fs);
    proof {
        lemma_flatten_len(pieces);
        assert(fs.len() == n);
        assert(size == m.len() + 32 + 32 * n + prefix_len(pieces, n as int) + prefix_len(contents, n as int));
    }
    while i < n
        invariant
            size == m.len() + 32 + 32 * n + prefix_len(pieces, n as int) + prefix_len(contents, n as int),
            size == package_size(encode_utf8(name@), encode_utf8(version@), encode_utf8(description@), file_bytes(files@)),
            n == files@.len(),
            fs == file_bytes(files@),
            pieces == pool_pieces(fs),
            contents == file_contents(fs),
            i <= n,
            total <= 0x40_0000_0000,
            limit == 0xFFFF_FFFF,
            total == m.len() + 32 + 32 * n + prefix_len(pieces, i as int) + prefix_len(contents, i as int),
            flatten(pieces).len() == prefix_len(pieces, n as int),
        decreases n - i,
    {
        let pl = files[i].relative_path.as_str().as_bytes().len() as u64;
        let cl = files[i].content.len() as u64;
        proof {
            assert(pieces[i as int].len() == pl + 1);
            assert(contents[i as int].len() == cl);
            lemma_prefix_len_mono(pieces, i + 1, n as int);
            lemma_prefix_len_mono(contents, i + 1, n as int);
            lemma_prefix_len_mono(pieces, 0, i as int);
            lemma_prefix_len_mono(contents, 0, i as int);
            assert(prefix_len(pieces, i + 1) == prefix_len(pieces, i as int) + pieces[i as int].len());
            assert(prefix_len(contents, i + 1) == prefix_len(contents, i as int) + contents[i as int].len());
        }
        if pl >= limit || cl > limit || total + pl + 1 + cl > limit {
            return false;
        }
        total = total + pl + 1 + cl;
        i = i + 1;
    }
    total <= limit
}

/// Builds the package image of `files` with the given name, version and
/// description: header (with its checksum), manifest, file table (with each
/// file's checksum and flags), string pool, then the file contents in order.
pub fn build_package(name: &str, version: &str, description: &str, files: &Vec<FileEntry>) -> (out: Vec<u8>)
    requires
        package_size(encode_utf8(name@), encode_utf8(version@), encode_utf8(description@), file_bytes(files@)) <= u32::MAX,
    ensures
        out@ == package_bytes(encode_utf8(name@), encode_utf8(version@), encode_utf8(description@), file_bytes(files@)),
{
    let ghost fs = file_bytes(files@);
    let ghost pieces = pool_pieces(fs);
    let ghost contents = file_contents(fs);
    let ghost nb = encode_utf8(name@);
    let ghost vb = encode_utf8(version@);
    let ghost db = encode_utf8(description@);
    let manifest = build_manifest(name, version, description);
    let pool = build_pool(files);
    let n = files.len();
    proof {
        lemma_flatten_len(pieces);
        lemma_prefix_len_mono(contents, 0, n as int);
    }
    let ds: u32 = (32 + manifest.len() as u64 + 32 * (n as u64) + pool.len() as u64) as u32;
    let table = build_table(files, ds);

    let mut tail: Vec<u8> = Vec::new();
    push_u16(&mut tail, 1);
    push_u16(&mut tail, 0);
    push_u32(&mut tail, 0);
    push_u32(&mut tail, 32);
    push_u32(&mut tail, manifest.len() as u32);
    push_u32(&mut tail, n as u32);
    push_u32(&mut tail, 0);
    assert(tail@ =~= header_tail(manifest@.len() as int, n as int));
    let header_crc = crc32_calc(tail.as_slice());

    let mut out: Vec<u8> = Vec::new();
    push_u32(&mut out, MAGIC_NXP1);
    push_u32(&mut out, header_crc);
    extend_bytes(&mut out, tail.as_slice());
    assert(out@ =~= header_bytes(manifest@.len() as int, n as int));
    extend_bytes(&mut out, manifest.as_slice());
    extend_bytes(&mut out, table.as_slice());
    extend_bytes(&mut out, pool.as_slice());
    let ghost before = out@;
    let mut i: usize = 0;
    proof {
        lemma_flatten_take_all(contents);
        assert(out@ =~= before + flatten(contents.take(0)));
    }
    while i < n
        invariant
            n == files@.len(),
            fs == file_bytes(files@),
            contents == file_contents(fs),
            i <= n,
            out@ == before + flatten(contents.take(i as int)),
        decreases n - i,
    {
        let content = files[i].content.as_slice();
        proof {
            assert(contents[i as int] == content@);
            lemma_flatten_take_step(contents, i as int);
        }
        extend_bytes(&mut out, content);
        assert(out@ =~= before + flatten(contents.take(i + 1)));
        i = i + 1;
    }
    proof {
        lemma_flatten_take_all(contents);
        reveal(package_bytes);
    }
    out
}

/// `neopkg.toml`, the package manifest's file name.
pub open spec fn manifest_file_name() -> Seq<u8> {
    seq![0x6eu8, 0x65, 0x6f, 0x70, 0x6b, 0x67, 0x2e, 0x74, 0x6f, 0x6d, 0x6c]
}

/// Whether a directory entry is left out of a package: hidden entries
/// (starting with `.`) and the manifest itself.
pub fn is_skipped_name(name: &str) -> (b: bool)
    ensures
        b == ((encode_utf8(name@).len() > 0 && encode_utf8(name@)[0] == 0x2e) || encode_utf8(name@)
            == manifest_file_name()),
{
    let n = name.as_bytes();
    let manifest: Vec<u8> = vec![0x6e, 0x65, 0x6f, 0x70, 0x6b, 0x67, 0x2e, 0x74, 0x6f, 0x6d, 0x6c];
    assert(manifest@ =~= manifest_file_name());
    if n.len() > 0 && n[0] == 0x2e {
        return true;
    }
    if n.len() != manifest.len() {
        return false;
    }
    let same = bytes_end_with(n, manifest.as_slice());
    assert(n@.subrange(0, n@.len() as int) =~= n@);
    same
}

} // verus!
