use neotools::manifest::{package_metadata, parse_manifest_text, render_manifest, white_space};

#[test]
fn reads_fields() {
    let f = parse_manifest_text("name = \"foo\"\nversion = \"2.0\"\n  description = \"A thing\"  \n");
    assert_eq!(f.name, "foo");
    assert_eq!(f.version, "2.0");
    assert_eq!(f.description, "A thing");
}

#[test]
fn last_line_wins_and_quotes_are_stripped() {
    let f = parse_manifest_text("name = \"a\"\nname = \"b\"\"\"\r\nother = 1");
    assert_eq!(f.name, "b");
    assert_eq!(f.version, "");
    assert_eq!(f.description, "");
}

#[test]
fn unicode_white_space_is_trimmed() {
    let f = parse_manifest_text("\u{3000}version = \"3\"\u{a0}");
    assert_eq!(f.version, "3");
    assert!(white_space('\u{2009}'));
    assert!(!white_space('x'));
}

#[test]
fn prefix_must_match_exactly() {
    let f = parse_manifest_text("name=\"x\"\nname = x\n");
    assert_eq!(f.name, "");
}

#[test]
fn metadata_defaults() {
    let m = package_metadata(None, "mypkg");
    assert_eq!(m.name, "mypkg");
    assert_eq!(m.version, "1.0.0");
    assert_eq!(m.description, "");
    let m2 = package_metadata(Some("version = \"\"\ndescription = \"d\"\n"), "dir");
    assert_eq!(m2.name, "dir");
    assert_eq!(m2.version, "1.0.0");
    assert_eq!(m2.description, "d");
    let m3 = package_metadata(Some("name = \"n\"\nversion = \"4\"\n"), "dir");
    assert_eq!(m3.name, "n");
    assert_eq!(m3.version, "4");
}

#[test]
fn writes_manifest() {
    assert_eq!(render_manifest("pkg", "1.2", ""), "name = \"pkg\"\nversion = \"1.2\"\n");
    assert_eq!(
        render_manifest("pkg", "1.2", "A b"),
        "name = \"pkg\"\nversion = \"1.2\"\ndescription = \"A b\"\n"
    );
}

#[test]
fn manifest_roundtrip() {
    let text = render_manifest("my pkg", "0.9", "Tools, etc.");
    let f = parse_manifest_text(&text);
    assert_eq!(f.name, "my pkg");
    assert_eq!(f.version, "0.9");
    assert_eq!(f.description, "Tools, etc.");
}

#[test]
fn extracted_metadata_recreated() {
    let text = render_manifest("tools", "2.1.0", "");
    let m = package_metadata(Some(&text), "somewhere");
    assert_eq!(m.name, "tools");
    assert_eq!(m.version, "2.1.0");
    assert_eq!(m.description, "");
}
