use neotools::crc::crc32_calc;
use neotools::nxp::{parse_nxp, verify_nxp, total_data_size, is_signed, NxpError, VerifyOutcome, MAGIC_NXP1};
use neotools::package::{
    build_package, build_manifest, entry_flags, is_skipped_name, make_tlv, package_fits, FileEntry,
};

fn files() -> Vec<FileEntry> {
    vec![
        FileEntry { relative_path: "bin/app.nxe".to_string(), content: b"\x7fELF-app".to_vec() },
        FileEntry { relative_path: "config/settings.ini".to_string(), content: b"a=1\n".to_vec() },
        FileEntry { relative_path: "locale/en.txt".to_string(), content: Vec::new() },
    ]
}

fn put_u32(d: &mut [u8], off: usize, v: u32) {
    d[off..off + 4].copy_from_slice(&v.to_le_bytes());
}

#[test]
fn tlv_layout() {
    assert_eq!(make_tlv(b"NAME", b"hi"), b"NAME\x02\x00\x00\x00hi".to_vec());
    assert_eq!(make_tlv(b"VER", b""), b"VER\x00\x00\x00\x00\x00".to_vec());
    assert_eq!(make_tlv(b"LONGTAG", b"x"), b"LONG\x01\x00\x00\x00x".to_vec());
}

#[test]
fn manifest_layout() {
    let m = build_manifest("pkg", "1.0", "");
    let mut expected = Vec::new();
    expected.extend_from_slice(b"NAME\x03\x00\x00\x00pkg");
    expected.extend_from_slice(b"VER \x03\x00\x00\x001.0");
    expected.extend_from_slice(b"ARCH\x06\x00\x00\x00x86_64");
    assert_eq!(m, expected);
    let m2 = build_manifest("pkg", "1.0", "d");
    assert_eq!(m2.len(), expected.len() + 9);
    assert_eq!(&m2[22..31], b"DESC\x01\x00\x00\x00d");
}

#[test]
fn flags_by_path() {
    assert_eq!(entry_flags("bin/app.nxe"), 1);
    assert_eq!(entry_flags("lib/core.nxl"), 1);
    assert_eq!(entry_flags("locale/app.nxl"), 1);
    assert_eq!(entry_flags("locale/en.txt"), 4);
    assert_eq!(entry_flags("config/settings"), 2);
    assert_eq!(entry_flags("app.ini"), 2);
    assert_eq!(entry_flags("pkg.toml"), 2);
    assert_eq!(entry_flags("readme.txt"), 0);
    assert_eq!(entry_flags(".nxe.txt"), 0);
}

#[test]
fn skipped_names() {
    assert!(is_skipped_name(".git"));
    assert!(is_skipped_name("neopkg.toml"));
    assert!(!is_skipped_name("neopkg.toml.bak"));
    assert!(!is_skipped_name("app.nxe"));
}

#[test]
fn package_header_layout() {
    let fs = files();
    let out = build_package("demo", "1.2.3", "A demo", &fs);
    assert_eq!(u32::from_le_bytes(out[0..4].try_into().unwrap()), MAGIC_NXP1);
    assert_eq!(&out[0..4], b"NXP1");
    assert_eq!(u32::from_le_bytes(out[4..8].try_into().unwrap()), crc32_calc(&out[8..32]));
    assert_eq!(u16::from_le_bytes(out[8..10].try_into().unwrap()), 1);
    assert_eq!(u32::from_le_bytes(out[16..20].try_into().unwrap()), 32);
    assert_eq!(u32::from_le_bytes(out[24..28].try_into().unwrap()), 3);
    let manifest_len = 8 + 4 + 8 + 5 + 8 + 6 + 8 + 6;
    assert_eq!(u32::from_le_bytes(out[20..24].try_into().unwrap()), manifest_len);
    let pool_len = "bin/app.nxe".len() + "config/settings.ini".len() + "locale/en.txt".len() + 3;
    let data_len = 8 + 4;
    assert_eq!(out.len(), 32 + manifest_len as usize + 96 + pool_len + data_len);
    let table = 32 + manifest_len as usize;
    // second entry: path offset 12, data offset right after the first file, flags config
    assert_eq!(u32::from_le_bytes(out[table + 32..table + 36].try_into().unwrap()), 12);
    let data_start = 32 + manifest_len as usize + 96 + pool_len;
    assert_eq!(u32::from_le_bytes(out[table + 36..table + 40].try_into().unwrap()) as usize, data_start + 8);
    assert_eq!(u32::from_le_bytes(out[table + 48..table + 52].try_into().unwrap()), 2);
    assert_eq!(u32::from_le_bytes(out[table + 44..table + 48].try_into().unwrap()), crc32_calc(b"a=1\n"));
}

#[test]
fn package_roundtrip() {
    let fs = files();
    let out = build_package("demo", "1.2.3", "A demo", &fs);
    let parsed = match parse_nxp(&out) {
        Ok(p) => p,
        Err(_) => panic!("package should parse"),
    };
    assert_eq!(parsed.name, "demo");
    assert_eq!(parsed.version, "1.2.3");
    assert_eq!(parsed.description, "A demo");
    assert_eq!(parsed.ver_major, 1);
    assert_eq!(parsed.ver_minor, 0);
    assert_eq!(parsed.flags, 0);
    assert!(!is_signed(&parsed));
    assert_eq!(parsed.entries.len(), 3);
    for (e, f) in parsed.entries.iter().zip(fs.iter()) {
        assert_eq!(e.path, f.relative_path);
        assert_eq!(e.data, f.content);
        assert_eq!(e.crc32, crc32_calc(&f.content));
    }
    assert_eq!(total_data_size(&parsed), 12);
    match verify_nxp(&out, &parsed) {
        VerifyOutcome::Checked { mismatches } => assert!(mismatches.is_empty()),
        VerifyOutcome::HeaderMismatch { .. } => panic!("header checksum should match"),
    }
}

#[test]
fn package_without_description() {
    let out = build_package("p", "0.1", "", &Vec::new());
    let parsed = match parse_nxp(&out) {
        Ok(p) => p,
        Err(_) => panic!("package should parse"),
    };
    assert_eq!(parsed.name, "p");
    assert_eq!(parsed.description, "");
    assert_eq!(parsed.entries.len(), 0);
}

#[test]
fn non_ascii_paths_read_back_replaced() {
    let fs = vec![FileEntry { relative_path: "café.txt".to_string(), content: b"x".to_vec() }];
    let out = build_package("n", "1", "", &fs);
    let parsed = match parse_nxp(&out) {
        Ok(p) => p,
        Err(_) => panic!("package should parse"),
    };
    assert_eq!(parsed.entries[0].path, "caf\u{FFFD}\u{FFFD}.txt");
}

#[test]
fn parse_errors() {
    assert!(matches!(parse_nxp(&[0u8; 10]), Err(NxpError::TooSmall)));
    assert!(matches!(parse_nxp(&[0u8; 32]), Err(NxpError::BadMagic(0))));
    let out = build_package("demo", "1.2.3", "A demo", &files());

    let mut m = out.clone();
    put_u32(&mut m, 20, 100_000);
    assert!(matches!(parse_nxp(&m), Err(NxpError::ManifestOutOfBounds)));

    let mut t = out.clone();
    put_u32(&mut t, 24, 10_000);
    assert!(matches!(parse_nxp(&t), Err(NxpError::FileTableOutOfBounds)));

    let mut e = out.clone();
    let manifest_len = u32::from_le_bytes(out[20..24].try_into().unwrap()) as usize;
    let table = 32 + manifest_len;
    put_u32(&mut e, table + 32 + 8, 1_000_000);
    match parse_nxp(&e) {
        Err(NxpError::EntryOutOfBounds(path)) => assert_eq!(path, "config/settings.ini"),
        _ => panic!("expected an entry out of bounds"),
    }
}

#[test]
fn verify_detects_corruption() {
    let out = build_package("demo", "1.2.3", "A demo", &files());
    let mut c = out.clone();
    let last = c.len() - 1;
    c[last] ^= 0xff;
    let parsed = match parse_nxp(&c) {
        Ok(p) => p,
        Err(_) => panic!("package should parse"),
    };
    match verify_nxp(&c, &parsed) {
        VerifyOutcome::Checked { mismatches } => {
            assert_eq!(mismatches.len(), 1);
            assert_eq!(mismatches[0].path, "config/settings.ini");
            assert_eq!(mismatches[0].expected, crc32_calc(b"a=1\n"));
            assert_eq!(mismatches[0].actual, crc32_calc(b"a=1\xf5"));
        }
        VerifyOutcome::HeaderMismatch { .. } => panic!("header checksum should match"),
    }
    let mut h = out.clone();
    h[12] = 1;
    let parsed = match parse_nxp(&h) {
        Ok(p) => p,
        Err(_) => panic!("package should parse"),
    };
    assert!(is_signed(&parsed));
    match verify_nxp(&h, &parsed) {
        VerifyOutcome::HeaderMismatch { expected, actual } => {
            assert_eq!(expected, crc32_calc(&out[8..32]));
            assert_eq!(actual, crc32_calc(&h[8..32]));
        }
        VerifyOutcome::Checked { .. } => panic!("header checksum should not match"),
    }
}

#[test]
fn size_limit() {
    assert!(package_fits("demo", "1", "", &files()));
    assert!(package_fits("demo", "1", "", &Vec::new()));
}

fn verifies(d: &[u8]) -> bool {
    match parse_nxp(d) {
        Ok(p) => matches!(verify_nxp(d, &p), VerifyOutcome::Checked { ref mismatches } if mismatches.is_empty()),
        Err(_) => false,
    }
}

#[test]
fn one_byte_change_detected() {
    let out = build_package("demo", "1.2.3", "A demo", &files());
    assert!(verifies(&out));
    let data_start = out.len() - 12;
    let mut positions: Vec<usize> = (0..32).collect();
    positions.extend(data_start..out.len());
    for k in positions {
        for flip in [0x01u8, 0x80, 0xff] {
            let mut c = out.clone();
            c[k] ^= flip;
            assert!(!verifies(&c), "change at {} not caught", k);
        }
    }
}
