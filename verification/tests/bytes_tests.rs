use neotools::bytes::{align4, read_i64, read_u16, read_u32, read_u64, bytes_match_at};
use neotools::crc::{crc32_calc, crc32_table};
use neotools::notes::get_meta_string;
use neotools::text::{get_cstr, get_str_at, read_cstr, ByteDisplay};

#[test]
fn reads_little_endian_fields() {
    let data = [0x01u8, 0x02, 0x03, 0x04, 0x05, 0x06, 0x07, 0x08, 0x09];
    assert_eq!(read_u16(&data, 0), 0x0201);
    assert_eq!(read_u16(&data, 7), 0x0908);
    assert_eq!(read_u32(&data, 1), 0x05040302);
    assert_eq!(read_u64(&data, 0), 0x0807060504030201);
    assert_eq!(read_u64(&data, 1), 0x0908070605040302);
}

#[test]
fn reads_signed_values() {
    let minus_one = [0xffu8; 8];
    assert_eq!(read_i64(&minus_one, 0), -1);
    let min = [0, 0, 0, 0, 0, 0, 0, 0x80u8];
    assert_eq!(read_i64(&min, 0), i64::MIN);
    let seven = 7i64.to_le_bytes();
    assert_eq!(read_i64(&seven, 0), 7);
    let neg = (-300i64).to_le_bytes();
    assert_eq!(read_i64(&neg, 0), -300);
}

#[test]
fn aligns_to_four() {
    assert_eq!(align4(0), 0);
    assert_eq!(align4(1), 4);
    assert_eq!(align4(4), 4);
    assert_eq!(align4(5), 8);
    assert_eq!(align4(7), 8);
    assert_eq!(align4(13), 16);
}

#[test]
fn matches_bytes_at_position() {
    let s = b"abcNeoDOSxyz";
    assert!(bytes_match_at(s, 3, b"NeoDOS"));
    assert!(!bytes_match_at(s, 2, b"NeoDOS"));
    assert!(bytes_match_at(s, 0, b""));
}

#[test]
fn crc32_check_value() {
    assert_eq!(crc32_calc(b"123456789"), 0xCBF4_3926);
    assert_eq!(crc32_calc(b""), 0);
    assert_eq!(crc32_calc(b"a"), 0xE8B7_BE43);
    assert_eq!(crc32_calc(b"The quick brown fox jumps over the lazy dog"), 0x414F_A339);
}

#[test]
fn crc32_table_entries() {
    let t = crc32_table();
    assert_eq!(t.len(), 256);
    assert_eq!(t[0], 0);
    assert_eq!(t[1], 0x7707_3096);
    assert_eq!(t[255], 0x2D02_EF8D);
}

#[test]
fn reads_printable_names() {
    let data = b"x.text\0a\x01b\0end";
    assert_eq!(get_cstr(data, 1), ".text");
    assert_eq!(get_cstr(data, 7), "a.b");
    assert_eq!(get_cstr(data, 11), "end");
    assert_eq!(get_cstr(data, 100), "");
    assert_eq!(get_cstr(data, 6), "");
}

#[test]
fn reads_pool_paths() {
    let pool = b"bin/app\0caf\xc3\xa9\0";
    assert_eq!(get_str_at(pool, 0), "bin/app");
    assert_eq!(get_str_at(pool, 4), "app");
    assert_eq!(get_str_at(pool, 8), "caf\u{FFFD}\u{FFFD}");
    assert_eq!(get_str_at(pool, 40), "");
}

#[test]
fn reads_latin1_names() {
    let data = b"\xe9t\xe9\0";
    assert_eq!(read_cstr(data, 0, ByteDisplay::Latin1), "\u{e9}t\u{e9}");
    assert_eq!(read_cstr(data, 0, ByteDisplay::Printable), ".t.");
}

#[test]
fn lossy_text() {
    let rec = |v: &[u8]| {
        let mut d = vec![1u8, 0];
        d.extend_from_slice(&(v.len() as u16).to_le_bytes());
        d.extend_from_slice(v);
        d
    };
    assert_eq!(get_meta_string(&rec(b"hello"), 1).as_deref(), Some("hello"));
    assert_eq!(get_meta_string(&rec("héllo".as_bytes()), 1).as_deref(), Some("héllo"));
    assert_eq!(get_meta_string(&rec(b"a\xffb"), 1).as_deref(), Some("a\u{FFFD}b"));
}

#[test]
fn crc32_residue() {
    for data in [&b""[..], b"123456789", b"NXP1 package header bytes"] {
        let mut with_crc = data.to_vec();
        with_crc.extend_from_slice(&crc32_calc(data).to_le_bytes());
        assert_eq!(crc32_calc(&with_crc), 0x2144_DF1C);
    }
}
