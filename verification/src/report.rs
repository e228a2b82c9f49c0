//! The inspector's JSON report: which fields it holds, and its text.

use vstd::prelude::*;
use crate::elf::ElfHeader;
use crate::notes::{
    find_neodos_note, json_metadata, json_metadata_spec, neodos_note, JsonField, JsonFieldView,
    JsonValue, JsonValueView,
};
use crate::text::push_char;
use vstd::string::StringExecFns;

verus! {

/// The lower-case hexadecimal digit for `d` (below 16).
pub open spec fn hex_digit(d: int) -> char {
    if d < 10 {
        ((48 + d) as u8) as char
    } else {
        ((87 + d) as u8) as char
    }
}

/// The lower-case hexadecimal digits of `v`, without leading zeros (`0` for zero).
pub open spec fn hex_digits(v: nat) -> Seq<char>
    decreases v,
{
    if v < 16 {
        seq![hex_digit(v as int)]
    } else {
        hex_digits(v / 16).push(hex_digit((v % 16) as int))
    }
}

/// `v` written as `0x` followed by its lower-case hexadecimal digits.
pub open spec fn hex_label(v: nat) -> Seq<char> {
    seq!['0', 'x'] + hex_digits(v)
}

fn hex_digit_char(d: u64) -> (c: char)
    requires
        d < 16,
    ensures
        c == hex_digit(d as int),
{
    if d < 10 {
        (48 + d as u8) as char
    } else {
        (87 + d as u8) as char
    }
}

/// Writes `v` as `0x` followed by its lower-case hexadecimal digits.
pub fn hex_text(v: u64) -> (s: String)
    ensures
        s@ == hex_label(v as nat),
{
    let mut digits: Vec<char> = Vec::new();
    let mut q = v;
    while q >= 16
        invariant
            hex_digits(v as nat) == hex_digits(q as nat) + digits@,
        decreases q,
    {
        let c = hex_digit_char(q % 16);
        let ghost before = digits@;
        digits.insert(0, c);
        assert(hex_digits(q as nat) == hex_digits((q / 16) as nat).push(c));
        assert(hex_digits((q / 16) as nat).push(c) + before =~= hex_digits((q / 16) as nat) + digits@);
        q = q / 16;
    }
    let c = hex_digit_char(q);
    digits.insert(0, c);
    assert(hex_digits(q as nat) + digits@.drop_first() =~= digits@);
    let mut s = String::new();
    push_char(&mut s, '0');
    push_char(&mut s, 'x');
    let mut i: usize = 0;
    while i < digits.len()
        invariant
            i <= digits@.len(),
            s@ == seq!['0', 'x'] + digits@.take(i as int),
        decreases digits@.len() - i,
    {
        push_char(&mut s, digits[i]);
        assert(digits@.take(i + 1) =~= digits@.take(i as int).push(digits@[i as int]));
        i = i + 1;
    }
    assert(digits@.take(i as int) =~= digits@);
    s
}

/// What `serde_json::to_string_pretty` makes of the JSON object with the
/// fields `top`, followed, when `meta` is present, by the field `meta_key`
/// holding the object with the fields `meta`.
pub uninterp spec fn json_report_text(top: Seq<JsonFieldView>, meta_key: Seq<char>, meta: Option<Seq<JsonFieldView>>) -> Seq<char>;

/// The views of an optional list of fields.
pub open spec fn opt_fields(meta: Option<Vec<JsonField>>) -> Option<Seq<JsonFieldView>> {
    match meta {
        Some(v) => Some(v@.map_values(|f: JsonField| f@)),
        None => None,
    }
}

/// Builds a `serde_json::Map` from the fields, one entry per field (text as a
/// JSON string, numbers as JSON numbers), adds the `meta` object under
/// `meta_key` when present, and renders it with `serde_json::to_string_pretty`.
/// Trusted: the text is `json_report_text` of the fields. Rendering a value
/// whose keys are all strings does not fail.
#[verifier::external_body]
pub(crate) fn json_report_pretty(top: &Vec<JsonField>, meta_key: &str, meta: &Option<Vec<JsonField>>) -> (s: String)
    ensures
        s@ == json_report_text(top@.map_values(|f: JsonField| f@), meta_key@, opt_fields(*meta)),
{
    let mut map = serde_json::Map::new();
    for f in top.iter() {
        map.insert(f.key.to_string(), match &f.value { JsonValue::Text(t) => t.clone().into(), JsonValue::Number(n) => (*n).into() });
    }
    if let Some(fields) = meta {
        let mut inner = serde_json::Map::new();
        for f in fields.iter() {
            inner.insert(f.key.to_string(), match &f.value { JsonValue::Text(t) => t.clone().into(), JsonValue::Number(n) => (*n).into() });
        }
        map.insert(meta_key.to_string(), serde_json::Value::Object(inner));
    }
    serde_json::to_string_pretty(&serde_json::Value::Object(map)).unwrap()
}

/// The top-level fields of the report on a file `d` with header `h`: the
/// format, the type, machine and entry point in hexadecimal, the numbers of
/// segments and sections, and the file's size.
pub open spec fn json_top_fields(d: Seq<u8>, h: ElfHeader) -> Seq<JsonFieldView> {
    seq![
        JsonFieldView { key: "format"@, value: JsonValueView::Text("ELF64"@) },
        JsonFieldView { key: "type"@, value: JsonValueView::Text(hex_label(h.e_type as nat)) },
        JsonFieldView { key: "machine"@, value: JsonValueView::Text(hex_label(h.e_machine as nat)) },
        JsonFieldView { key: "entry"@, value: JsonValueView::Text(hex_label(h.e_entry as nat)) },
        JsonFieldView { key: "segments"@, value: JsonValueView::Number(h.e_phnum as u64) },
        JsonFieldView { key: "sections"@, value: JsonValueView::Number(h.e_shnum as u64) },
        JsonFieldView { key: "size"@, value: JsonValueView::Number(d.len() as u64) },
    ]
}

/// The metadata object of the report: the NeoDOS metadata fields, when the
/// file has a NeoDOS note.
pub open spec fn json_meta_fields(d: Seq<u8>) -> Option<Seq<JsonFieldView>> {
    match neodos_note(d) {
        Some(n) => Some(json_metadata_spec(n)),
        None => None,
    }
}

/// The inspector's JSON report on a file with header `h`: the top-level
/// fields, then a `metadata` object when the file has a NeoDOS note.
pub fn json_report(data: &[u8], h: &ElfHeader) -> (s: String)
    requires
        data@.len() >= 58,
    ensures
        s@ == json_report_text(json_top_fields(data@, *h), "metadata"@, json_meta_fields(data@)),
{
    let mut top: Vec<JsonField> = Vec::new();
    top.push(JsonField { key: "format", value: JsonValue::Text(String::from_str("ELF64")) });
    top.push(JsonField { key: "type", value: JsonValue::Text(hex_text(h.e_type as u64)) });
    top.push(JsonField { key: "machine", value: JsonValue::Text(hex_text(h.e_machine as u64)) });
    top.push(JsonField { key: "entry", value: JsonValue::Text(hex_text(h.e_entry)) });
    top.push(JsonField { key: "segments", value: JsonValue::Number(h.e_phnum as u64) });
    top.push(JsonField { key: "sections", value: JsonValue::Number(h.e_shnum as u64) });
    top.push(JsonField { key: "size", value: JsonValue::Number(data.len() as u64) });
    assert(top@.map_values(|f: JsonField| f@) =~= json_top_fields(data@, *h));
    let meta = match find_neodos_note(data) {
        Some(note) => Some(json_metadata(note.as_slice())),
        None => None,
    };
    assert(opt_fields(meta) == json_meta_fields(data@));
    json_report_pretty(&top, "metadata", &meta)
}

} // verus!
